use dfdx::numpy::{
    header_from_value, read, read_data, read_header, Bits32, Bits64, Endian, NpyError,
    ParsedHeader, PyInt, PyValue, ReadNumbers,
};

/// The bytes of an array file with the given header text and data.
fn file(header: &str, data: &[u8]) -> Vec<u8> {
    let mut bytes = vec![0x93, b'N', b'U', b'M', b'P', b'Y', 1, 0];
    bytes.extend_from_slice(&(header.len() as u16).to_le_bytes());
    bytes.extend_from_slice(header.as_bytes());
    bytes.extend_from_slice(data);
    bytes
}

fn header(descr: &str, shape: &str) -> String {
    format!("{{'descr': '{}', 'fortran_order': False, 'shape': {}, }}          \n", descr, shape)
}

fn le_bytes(values: &[f32]) -> Vec<u8> {
    values.iter().flat_map(|v| v.to_le_bytes()).collect()
}

fn floats<const N: usize>(bits: &[Bits32; N]) -> Vec<f32> {
    bits.iter().map(|b| f32::from_bits(b.0)).collect()
}

#[test]
fn test_0d_f32_load() {
    let data: f32 = 3.14;
    let bytes = file(&header("<f4", "()"), &data.to_le_bytes());

    let mut v = Bits32(0);
    assert!(read(&bytes, &mut v).is_ok());
    assert_eq!(f32::from_bits(v.0), data);

    let mut v = Bits64(0);
    assert!(read(&bytes, &mut v).is_err());

    let mut v = [Bits32(0); 1];
    assert!(read(&bytes, &mut v).is_err());
}

#[test]
fn test_1d_f32_save() {
    let data: [f32; 5] = [0.0, 1.0, 2.0, 3.0, -4.0];
    let bytes = file(&header("<f4", "(5,)"), &le_bytes(&data));

    let mut value = [Bits32(0); 5];
    assert!(read(&bytes, &mut value).is_ok());
    assert_eq!(floats(&value), data);

    let mut value = [Bits64(0); 5];
    assert!(read(&bytes, &mut value).is_err());

    let mut value = Bits32(0);
    assert!(read(&bytes, &mut value).is_err());

    let mut value = [[Bits32(0); 2]; 3];
    assert!(read(&bytes, &mut value).is_err());
}

#[test]
fn test_2d_f32_save() {
    let data: [[f32; 3]; 2] = [[0.0, 1.0, 2.0], [3.0, 4.0, 5.0]];
    let flat: Vec<f32> = data.iter().flatten().copied().collect();
    let bytes = file(&header("<f4", "(2, 3)"), &le_bytes(&flat));

    let mut value = [[Bits32(0); 3]; 2];
    assert!(read(&bytes, &mut value).is_ok());
    assert_eq!(floats(&value[0]), data[0]);
    assert_eq!(floats(&value[1]), data[1]);

    let mut value = [Bits64(0); 5];
    assert!(read(&bytes, &mut value).is_err());

    let mut value = Bits32(0);
    assert!(read(&bytes, &mut value).is_err());

    let mut value = [[Bits32(0); 2]; 3];
    assert!(read(&bytes, &mut value).is_err());
}

#[test]
fn test_read_f64_in_both_orders() {
    let data: [f64; 2] = [1.5, -2.25];
    let little: Vec<u8> = data.iter().flat_map(|v| v.to_le_bytes()).collect();
    let big: Vec<u8> = data.iter().flat_map(|v| v.to_be_bytes()).collect();
    let native: Vec<u8> = data.iter().flat_map(|v| v.to_ne_bytes()).collect();

    let mut value = [Bits64(0); 2];
    assert!(read(&file(&header("<f8", "(2,)"), &little), &mut value).is_ok());
    assert_eq!([f64::from_bits(value[0].0), f64::from_bits(value[1].0)], data);

    let mut value = [Bits64(0); 2];
    assert!(read(&file(&header(">f8", "(2,)"), &big), &mut value).is_ok());
    assert_eq!([f64::from_bits(value[0].0), f64::from_bits(value[1].0)], data);

    let mut value = [Bits64(0); 2];
    assert!(read(&file(&header("=f8", "(2,)"), &native), &mut value).is_ok());
    assert_eq!([f64::from_bits(value[0].0), f64::from_bits(value[1].0)], data);
}

#[test]
fn test_read_numbers_in_each_order() {
    let bytes = [0x01u8, 0x02, 0x03, 0x04, 0xff];
    let mut v = Bits32(0);
    assert!(matches!(v.read_numbers(&bytes, 0, Endian::Little), Ok(4)));
    assert_eq!(v.0, 0x04030201);
    assert!(matches!(v.read_numbers(&bytes, 1, Endian::Big), Ok(5)));
    assert_eq!(v.0, 0x020304ff);
    assert!(matches!(v.read_numbers(&bytes, 0, Endian::Native), Ok(4)));
    assert_eq!(v.0, u32::from_ne_bytes([1, 2, 3, 4]));
    assert!(matches!(v.read_numbers(&bytes, 2, Endian::Little), Err(NpyError::IoError)));
    let mut w = Bits64(0);
    assert!(matches!(w.read_numbers(&bytes, 0, Endian::Little), Err(NpyError::IoError)));
    let wide = [1u8, 2, 3, 4, 5, 6, 7, 8];
    assert!(matches!(w.read_numbers(&wide, 0, Endian::Big), Ok(8)));
    assert_eq!(w.0, 0x0102030405060708);
    assert!(matches!(w.read_numbers(&wide, 0, Endian::Native), Ok(8)));
    assert_eq!(w.0, u64::from_ne_bytes(wide));
}

#[test]
fn test_header_is_read() {
    let bytes = file("  \t{'shape': (2, 3), 'fortran_order': False, 'descr': '<f4'}\n", &[7]);
    let (found, at) = read_header(&bytes).unwrap();
    assert_eq!(found.descr, "<f4");
    assert_eq!(found.shape.len(), 2);
    assert!(found.shape[0].is_count(2));
    assert!(found.shape[1].is_count(3));
    assert!(!found.shape[1].is_count(2));
    assert_eq!(bytes[at], 7);
}

#[test]
fn test_framing_errors() {
    assert!(matches!(read_header(&[0x93, b'N', b'U']), Err(NpyError::IoError)));
    assert!(matches!(
        read_header(&[0x93, b'N', b'U', b'M', b'P', b'X', 1, 0]),
        Err(NpyError::InvalidMagicNumber([0x93, b'N', b'U', b'M', b'P', b'X']))
    ));
    assert!(matches!(read_header(&[0x93, b'N', b'U', b'M', b'P', b'Y', 1]), Err(NpyError::IoError)));
    assert!(matches!(
        read_header(&[0x93, b'N', b'U', b'M', b'P', b'Y', 2, 0, 0, 0]),
        Err(NpyError::InvalidVersion([2, 0]))
    ));
    assert!(matches!(read_header(&[0x93, b'N', b'U', b'M', b'P', b'Y', 1, 0, 4]), Err(NpyError::IoError)));
    assert!(matches!(
        read_header(&[0x93, b'N', b'U', b'M', b'P', b'Y', 1, 0, 4, 0, b'{', b'}']),
        Err(NpyError::IoError)
    ));
    assert!(matches!(
        read_header(&[0x93, b'N', b'U', b'M', b'P', b'Y', 1, 0, 2, 0, 0xff, 0xfe]),
        Err(NpyError::Utf8Error(_))
    ));
    assert!(matches!(read_header(&file("{'descr': ", &[])), Err(NpyError::PyLiteral(_))));
}

#[test]
fn test_header_errors() {
    let fails = |text: &str| read_header(&file(text, &[])).unwrap_err();
    assert!(matches!(fails("[1, 2]"), NpyError::HeaderNotADict));
    assert!(matches!(fails("{'fortran_order': False, 'shape': ()}"), NpyError::HeaderMissingDescr));
    assert!(matches!(fails("{'descr': '<f4', 'shape': ()}"), NpyError::HeaderMissingFortranOrder));
    assert!(matches!(fails("{'descr': '<f4', 'fortran_order': False}"), NpyError::HeaderInvalidShape));
    assert!(matches!(
        fails("{'descr': '<f4', 'fortran_order': True, 'shape': ()}"),
        NpyError::HeaderInvalidFortranOrder
    ));
    assert!(matches!(
        fails("{'descr': 4, 'fortran_order': False, 'shape': ()}"),
        NpyError::HeaderInvalidDescr
    ));
    assert!(matches!(
        fails("{'descr': '<f4', 'fortran_order': False, 'shape': [2]}"),
        NpyError::HeaderInvalidShape
    ));
    assert!(matches!(
        fails("{'descr': '<f4', 'fortran_order': False, 'shape': (2, 'x')}"),
        NpyError::HeaderInvalidShape
    ));
    // the last of two equal keys counts
    assert!(matches!(
        fails("{'descr': '<f4', 'fortran_order': False, 'shape': (), 'fortran_order': True}"),
        NpyError::HeaderInvalidFortranOrder
    ));
}

#[test]
fn test_data_errors() {
    let mut v = [Bits32(0); 2];
    let data = le_bytes(&[1.0, 2.0]);
    assert!(matches!(read(&file(&header("<f4", "(3,)"), &data), &mut v), Err(NpyError::WrongShape)));
    assert!(matches!(read(&file(&header("<f4", "(-2,)"), &data), &mut v), Err(NpyError::WrongShape)));
    assert!(matches!(
        read(&file(&header("<f4", "(18446744073709551618,)"), &data), &mut v),
        Err(NpyError::WrongShape)
    ));
    assert!(matches!(read(&file(&header("<f4", "(2, 1)"), &data), &mut v), Err(NpyError::WrongShape)));
    assert!(matches!(read(&file(&header("f4", "(2,)"), &data), &mut v), Err(NpyError::InvalidAlignment)));
    assert!(matches!(read(&file(&header("", "(2,)"), &data), &mut v), Err(NpyError::InvalidAlignment)));
    assert!(matches!(read(&file(&header("<f8", "(2,)"), &data), &mut v), Err(NpyError::WrongDtype)));
    assert!(matches!(read(&file(&header("<f4", "(2,)"), &data[..7]), &mut v), Err(NpyError::IoError)));
    assert!(read(&file(&header("<f4", "(2,)"), &data), &mut v).is_ok());
    assert_eq!(floats(&v), [1.0, 2.0]);
}

#[test]
fn test_header_from_value() {
    let text = |s: &str| PyValue::Text(s.to_string());
    let count = |n: u64| PyValue::Integer(PyInt { negative: false, digits: vec![n] });
    let value = PyValue::Dict(vec![
        (text("descr"), text(">f8")),
        (text("fortran_order"), PyValue::Boolean(false)),
        (text("shape"), PyValue::Tuple(vec![count(4), count(0)])),
        (PyValue::Nothing, PyValue::Float(0)),
    ]);
    let found = header_from_value(&value).unwrap();
    assert_eq!(found.descr, ">f8");
    assert_eq!(found.shape.len(), 2);
    assert!(found.shape[0].is_count(4));
    assert!(found.shape[1].is_count(0));
    assert!(matches!(header_from_value(&text("descr")), Err(NpyError::HeaderNotADict)));
    assert!(matches!(header_from_value(&PyValue::Dict(vec![])), Err(NpyError::HeaderMissingDescr)));
}

#[test]
fn test_integers_equal_counts() {
    let int = |negative: bool, digits: &[u64]| PyInt { negative, digits: digits.to_vec() };
    assert!(int(false, &[]).is_count(0));
    assert!(int(false, &[0, 0]).is_count(0));
    assert!(int(true, &[0]).is_count(0));
    assert!(int(false, &[5]).is_count(5));
    assert!(int(false, &[5, 0]).is_count(5));
    assert!(!int(true, &[5]).is_count(5));
    assert!(!int(false, &[5, 1]).is_count(5));
    assert!(!int(false, &[0, 1]).is_count(0));
    assert!(!int(false, &[6]).is_count(5));
    assert!(int(false, &[u64::MAX]).is_count(u64::MAX as usize));
}

#[test]
fn test_nothing_is_written_before_the_header_is_right() {
    let data = le_bytes(&[1.0, 2.0]);
    let refused = [
        vec![0x93, b'N', b'U'],
        file("[1, 2]", &data),
        file("{'descr': ", &data),
        file(&header("<f4", "(3,)"), &data),
        file(&header("|f4", "(2,)"), &data),
        file(&header("", "(2,)"), &data),
        file(&header("<f8", "(2,)"), &data),
        file(&header("<f4", "(2,)"), &[]),
    ];
    for bytes in refused.iter() {
        let mut v = [Bits32(7), Bits32(9)];
        assert!(read(bytes, &mut v).is_err());
        assert_eq!((v[0].0, v[1].0), (7, 9));
    }
}

#[test]
fn test_a_number_cut_short_keeps_its_value() {
    let mut v = Bits32(41);
    assert!(matches!(v.read_numbers(&[0x00, 0x00, 0x80], 0, Endian::Little), Err(NpyError::IoError)));
    assert_eq!(v.0, 41);
    let mut w = Bits64(42);
    assert!(matches!(w.read_numbers(&[0; 7], 0, Endian::Big), Err(NpyError::IoError)));
    assert_eq!(w.0, 42);
}

#[test]
fn test_an_array_cut_short_holds_what_was_read() {
    let mut bytes = le_bytes(&[1.0, 2.0]);
    bytes.extend_from_slice(&[0x00, 0x00]);
    let mut v = [Bits32(7); 4];
    assert!(matches!(v.read_numbers(&bytes, 0, Endian::Little), Err(NpyError::IoError)));
    assert_eq!(floats(&v)[..2], [1.0, 2.0]);
    assert_eq!((v[2].0, v[3].0), (7, 7));

    let mut nested = [[Bits32(7); 2]; 2];
    let three = le_bytes(&[1.0, 2.0, 3.0]);
    assert!(matches!(nested.read_numbers(&three, 0, Endian::Little), Err(NpyError::IoError)));
    assert_eq!(floats(&nested[0]), [1.0, 2.0]);
    assert_eq!(f32::from_bits(nested[1][0].0), 3.0);
    assert_eq!(nested[1][1].0, 7);

    let mut read_all = [Bits32(0); 2];
    assert!(matches!(read_all.read_numbers(&bytes, 0, Endian::Little), Ok(8)));
    assert_eq!(floats(&read_all), [1.0, 2.0]);
}

#[test]
fn test_data_is_read_for_a_given_header() {
    let count = |n: u64| PyInt { negative: false, digits: vec![n] };
    let found = ParsedHeader { descr: ">f4".to_string(), shape: vec![count(2)] };
    let bytes = [9u8, 0x3f, 0x80, 0, 0, 0x40, 0, 0, 0];
    let mut v = [Bits32(0); 2];
    assert!(read_data(&found, &bytes, 1, &mut v).is_ok());
    assert_eq!(floats(&v), [1.0, 2.0]);
    let mut v = [Bits32(5); 2];
    assert!(matches!(read_data(&found, &bytes, 2, &mut v), Err(NpyError::IoError)));
    assert_eq!(f32::from_bits(v[0].0), f32::from_bits(0x8000_0040));
    assert_eq!(v[1].0, 5);
    let mut v = [Bits32(5); 3];
    assert!(matches!(read_data(&found, &bytes, 1, &mut v), Err(NpyError::WrongShape)));
    assert_eq!(v[0].0, 5);
    let wrong = ParsedHeader { descr: "f4".to_string(), shape: vec![count(2)] };
    let mut v = [Bits32(5); 2];
    assert!(matches!(read_data(&wrong, &bytes, 1, &mut v), Err(NpyError::InvalidAlignment)));
    assert_eq!(v[0].0, 5);
}

#[test]
fn test_deeply_nested_header_is_refused() {
    let deep = format!("{}{}", "[".repeat(200), "]".repeat(200));
    assert!(matches!(read_header(&file(&deep, &[])), Err(NpyError::PyLiteral(_))));
    let nine = format!("{}{}", "[".repeat(9), "]".repeat(9));
    assert!(matches!(read_header(&file(&nine, &[])), Err(NpyError::PyLiteral(_))));
    let eight = format!("{}{}", "[".repeat(8), "]".repeat(8));
    assert!(matches!(read_header(&file(&eight, &[])), Err(NpyError::HeaderNotADict)));
    // brackets that are closed again do not add up
    let wide = format!("{{'descr': '<f4', 'fortran_order': False, 'shape': (2,), 'more': [{}]}}", "(1,),".repeat(40));
    assert!(read_header(&file(&wide, &[])).is_ok());
}
