//! Reading the header of an array file: the magic number, the version, and
//! a dictionary literal that names the element type and the shape.
use py_literal::Value;
use vstd::prelude::*;
use vstd::string::{StrSliceExecFns, StringSliceAdditionalSpecFns};
use vstd::utf8::{decode_utf8, valid_utf8};

verus! {

/// The error of `py_literal`'s parser.
#[verifier::external_type_specification]
#[verifier::external_body]
pub struct ExParseError(py_literal::ParseError);

/// A literal as `py_literal` parses it.
#[verifier::external_type_specification]
#[verifier::external_body]
pub struct ExValue(py_literal::Value);

/// An integer of `num_bigint`.
#[verifier::external_type_specification]
#[verifier::external_body]
pub struct ExBigInt(num_bigint::BigInt);

/// The error of the standard library's UTF-8 check.
#[verifier::external_type_specification]
#[verifier::external_body]
pub struct ExUtf8Error(std::str::Utf8Error);

/// An integer of any size: a sign and the digits of the magnitude in base
/// 2^64, least significant first.
#[derive(Debug)]
pub struct PyInt {
    pub negative: bool,
    pub digits: Vec<u64>,
}

/// The number that digits in base 2^64 stand for, least significant first.
pub open spec fn magnitude(digits: Seq<u64>) -> nat
    decreases digits.len(),
{
    if digits.len() == 0 {
        0
    } else {
        digits[0] as nat + 0x1_0000_0000_0000_0000 * magnitude(digits.skip(1))
    }
}

/// Digits that are all zero stand for zero.
pub proof fn lemma_magnitude_zero(digits: Seq<u64>)
    requires
        forall|i: int| 0 <= i < digits.len() ==> digits[i] == 0,
    ensures
        magnitude(digits) == 0,
    decreases digits.len(),
{
    if digits.len() > 0 {
        assert forall|i: int| 0 <= i < digits.skip(1).len() implies digits.skip(1)[i] == 0 by {
            assert(digits.skip(1)[i] == digits[i + 1]);
        }
        lemma_magnitude_zero(digits.skip(1));
    }
}

/// Digits with a nonzero digit above the lowest stand for at least 2^64.
pub proof fn lemma_magnitude_large(digits: Seq<u64>, k: int)
    requires
        1 <= k < digits.len(),
        digits[k] != 0,
    ensures
        magnitude(digits) >= 0x1_0000_0000_0000_0000,
    decreases digits.len(),
{
    let rest = digits.skip(1);
    assert(rest[k - 1] == digits[k]);
    if k == 1 {
        assert(rest[0] != 0);
        assert(magnitude(rest) >= 1);
    } else {
        lemma_magnitude_large(rest, k - 1);
    }
    assert(0x1_0000_0000_0000_0000 * magnitude(rest) >= 0x1_0000_0000_0000_0000) by (nonlinear_arith)
        requires
            magnitude(rest) >= 1,
    ;
}

impl PyInt {
    /// The integer that the sign and the digits stand for.
    pub open spec fn value(&self) -> int {
        if self.negative {
            -(magnitude(self.digits@) as int)
        } else {
            magnitude(self.digits@) as int
        }
    }

    /// Tells whether the integer equals a count.
    pub fn is_count(&self, n: usize) -> (r: bool)
        ensures
            r == (self.value() == n),
    {
        let len = self.digits.len();
        let mut i: usize = 1;
        while i < len
            invariant
                1 <= i,
                len == self.digits@.len(),
                forall|j: int| 1 <= j < i && j < len ==> self.digits@[j] == 0,
            decreases len - i,
        {
            if self.digits[i] != 0 {
                proof {
                    lemma_magnitude_large(self.digits@, i as int);
                }
                return false;
            }
            i += 1;
        }
        let low: u64 = if len == 0 {
            0
        } else {
            self.digits[0]
        };
        proof {
            if len > 0 {
                assert forall|j: int| 0 <= j < self.digits@.skip(1).len() implies self.digits@.skip(
                    1,
                )[j] == 0 by {
                    assert(self.digits@.skip(1)[j] == self.digits@[j + 1]);
                }
                lemma_magnitude_zero(self.digits@.skip(1));
            }
            assert(magnitude(self.digits@) == low);
        }
        if low == 0 {
            n == 0
        } else {
            !self.negative && low == n as u64 && n as u64 as usize == n
        }
    }
}

/// A literal value: a string, a number, a boolean, `None`, or a container
/// of literal values.
#[derive(Debug)]
pub enum PyValue {
    Text(String),
    Bytes(Vec<u8>),
    Integer(PyInt),
    /// A floating-point number, by the bits of its 8-byte encoding.
    Float(u64),
    /// A complex number, by the bits of its real and imaginary parts.
    Complex(u64, u64),
    Tuple(Vec<PyValue>),
    List(Vec<PyValue>),
    Dict(Vec<(PyValue, PyValue)>),
    SetOf(Vec<PyValue>),
    Boolean(bool),
    Nothing,
}

/// Converts an integer of `num_bigint` with `BigInt::to_u64_digits`, which
/// returns the sign and the digits of the magnitude, least significant
/// first.  Nothing is claimed of the result.
#[verifier::external_body]
fn lift_integer(i: &num_bigint::BigInt) -> PyInt {
    let (sign, digits) = i.to_u64_digits();
    match sign {
        num_bigint::Sign::Minus => PyInt { negative: true, digits },
        num_bigint::Sign::NoSign => PyInt { negative: false, digits },
        num_bigint::Sign::Plus => PyInt { negative: false, digits },
    }
}

/// Converts each value of a container of `py_literal`.  Nothing is claimed
/// of the result.
#[verifier::external_body]
fn lift_all(items: Vec<Value>) -> Vec<PyValue> {
    items.into_iter().map(lift).collect()
}

/// Converts the pairs of a dictionary of `py_literal`.  Nothing is claimed
/// of the result.
#[verifier::external_body]
fn lift_pairs(items: Vec<(Value, Value)>) -> Vec<(PyValue, PyValue)> {
    items.into_iter().map(|(k, v)| (lift(k), lift(v))).collect()
}

/// Converts a value of `py_literal`, variant by variant.  Nothing is
/// claimed of the result.
#[verifier::external_body]
fn lift(value: Value) -> PyValue {
    match value {
        Value::String(s) => PyValue::Text(s),
        Value::Bytes(b) => PyValue::Bytes(b),
        Value::Integer(i) => PyValue::Integer(lift_integer(&i)),
        Value::Float(x) => PyValue::Float(x.to_bits()),
        Value::Complex(c) => PyValue::Complex(c.re.to_bits(), c.im.to_bits()),
        Value::Tuple(t) => PyValue::Tuple(lift_all(t)),
        Value::List(t) => PyValue::List(lift_all(t)),
        Value::Dict(d) => PyValue::Dict(lift_pairs(d)),
        Value::Set(t) => PyValue::SetOf(lift_all(t)),
        Value::Boolean(b) => PyValue::Boolean(b),
        Value::None => PyValue::Nothing,
    }
}

/// How deep the brackets of a header may nest.
pub const MAX_NESTING: usize = 8;

/// Whether a byte opens a bracket.
pub open spec fn opens(b: u8) -> bool {
    b == 0x28 || b == 0x5B || b == 0x7B
}

/// Whether a byte closes a bracket.
pub open spec fn closes(b: u8) -> bool {
    b == 0x29 || b == 0x5D || b == 0x7D
}

/// How many brackets are open after the first `k` bytes; a closing
/// bracket with none open is passed over.
pub open spec fn nesting(bytes: Seq<u8>, k: nat) -> nat
    decreases k,
{
    if k == 0 {
        0
    } else {
        let before = nesting(bytes, (k - 1) as nat);
        if opens(bytes[k - 1]) {
            before + 1
        } else if closes(bytes[k - 1]) && before > 0 {
            (before - 1) as nat
        } else {
            before
        }
    }
}

/// Whether the brackets in the bytes never nest deeper than
/// [`MAX_NESTING`].
pub open spec fn shallow(bytes: Seq<u8>) -> bool {
    forall|k: nat| k <= bytes.len() ==> #[trigger] nesting(bytes, k) <= MAX_NESTING
}

/// Tells whether the brackets in the bytes never nest deeper than
/// [`MAX_NESTING`].
pub fn is_shallow(bytes: &[u8]) -> (r: bool)
    ensures
        r == shallow(bytes@),
{
    let mut depth: usize = 0;
    let mut i: usize = 0;
    while i < bytes.len()
        invariant
            i <= bytes@.len(),
            depth == nesting(bytes@, i as nat),
            depth <= MAX_NESTING,
            forall|k: nat| k <= i ==> #[trigger] nesting(bytes@, k) <= MAX_NESTING,
        decreases bytes@.len() - i,
    {
        let b = bytes[i];
        if b == 0x28 || b == 0x5B || b == 0x7B {
            if depth == MAX_NESTING {
                assert(nesting(bytes@, (i + 1) as nat) > MAX_NESTING);
                return false;
            }
            depth += 1;
        } else if (b == 0x29 || b == 0x5D || b == 0x7D) && depth > 0 {
            depth -= 1;
        }
        i += 1;
    }
    true
}

/// Parses a literal with `py_literal`'s `Value::from_str`.  Whether the
/// parser accepts a text depends on more than the text (it gives up when
/// the stack or its call budget runs short), so nothing is claimed of the
/// outcome.  The time it takes grows with every level of brackets, so
/// deeply nested texts are left out.
#[verifier::external_body]
fn parse_literal(text: &str) -> Result<PyValue, py_literal::ParseError>
    requires
        shallow(text.spec_bytes()),
{
    text.parse::<Value>().map(lift)
}

/// Makes the parser's error for a text with wrong syntax, with
/// `ParseError::Syntax`, which holds a message.
#[verifier::external_body]
fn syntax_error(message: &str) -> py_literal::ParseError {
    py_literal::ParseError::Syntax(message.to_string())
}

/// Whether `part` is a stretch of `whole`.
pub open spec fn is_stretch_of(part: Seq<char>, whole: Seq<char>) -> bool {
    exists|i: int, j: int| 0 <= i <= j <= whole.len() && part == #[trigger] whole.subrange(i, j)
}

/// Removes the white space at the two ends of a text with `str::trim`,
/// which returns a stretch of the text.
#[verifier::external_body]
fn trim(text: &str) -> (r: &str)
    ensures
        is_stretch_of(r@, text@),
{
    text.trim()
}

/// Checks bytes with `std::str::from_utf8`, which accepts exactly the
/// valid UTF-8 encodings and returns the text they encode.
#[verifier::external_body]
fn text_of(bytes: &[u8]) -> (r: Result<&str, std::str::Utf8Error>)
    ensures
        r is Ok <==> valid_utf8(bytes@),
        r matches Ok(s) ==> s@ == decode_utf8(bytes@),
{
    std::str::from_utf8(bytes)
}

/// What can be wrong with an array file.
#[derive(Debug)]
pub enum NpyError {
    /// The first six bytes are not the magic number; they are given.
    InvalidMagicNumber([u8; 6]),
    /// The two version bytes are not the expected ones; they are given.
    InvalidVersion([u8; 2]),
    /// The input ended before the bytes that were needed.
    IoError,
    /// The header bytes are not valid UTF-8; the error of the check is
    /// given.
    Utf8Error(std::str::Utf8Error),
    /// The header text was not parsed as a literal; the parser's error is
    /// given.
    PyLiteral(py_literal::ParseError),
    /// The header is not a dictionary.
    HeaderNotADict,
    /// The header dictionary has no "descr" key.
    HeaderMissingDescr,
    /// The header dictionary has no "fortran_order" key.
    HeaderMissingFortranOrder,
    /// The header dictionary has no "shape" key.
    HeaderMissingShape,
    /// The value for "descr" is not a string.
    HeaderInvalidDescr,
    /// The value for "fortran_order" is not `False`.
    HeaderInvalidFortranOrder,
    /// The value for "shape" is missing or is not a tuple of integers.
    HeaderInvalidShape,
    /// The shape in the header is not the expected one.
    WrongShape,
    /// The element type does not start with a byte-order mark.
    InvalidAlignment,
    /// The element type in the header is not the expected one.
    WrongDtype,
}

/// What a header says: the element type and the shape.
#[derive(Debug)]
pub struct ParsedHeader {
    pub descr: String,
    pub shape: Vec<PyInt>,
}

/// Whether a value is the string with the given characters.
pub open spec fn is_key(value: PyValue, name: Seq<char>) -> bool {
    value matches PyValue::Text(s) && s@ == name
}

/// The index of the last pair whose key is the given string, if any.
pub open spec fn last_with_key(items: Seq<(PyValue, PyValue)>, name: Seq<char>) -> Option<int>
    decreases items.len(),
{
    if items.len() == 0 {
        None
    } else if is_key(items.last().0, name) {
        Some(items.len() - 1)
    } else {
        last_with_key(items.drop_last(), name)
    }
}

/// What is found at the index that `last_with_key` gives.
pub proof fn lemma_last_with_key(items: Seq<(PyValue, PyValue)>, name: Seq<char>)
    ensures
        last_with_key(items, name) matches Some(i) ==> 0 <= i < items.len() && is_key(
            items[i].0,
            name,
        ),
    decreases items.len(),
{
    if items.len() > 0 && !is_key(items.last().0, name) {
        lemma_last_with_key(items.drop_last(), name);
    }
}

/// Whether a value is an integer with the same sign and digits as `n`.
pub open spec fn same_integer(value: PyValue, n: PyInt) -> bool {
    value matches PyValue::Integer(m) && m.negative == n.negative && m.digits@ == n.digits@
}

/// Whether every value is an integer.
pub open spec fn all_integers(items: Seq<PyValue>) -> bool {
    forall|i: int| 0 <= i < items.len() ==> (#[trigger] items[i]) is Integer
}

/// What the pairs of a header dictionary amount to: the indices of the
/// pairs that give the element type and the shape, or what is wrong.
pub open spec fn header_pairs(items: Seq<(PyValue, PyValue)>) -> Result<(int, int), NpyError> {
    let d = last_with_key(items, "descr"@);
    let f = last_with_key(items, "fortran_order"@);
    let s = last_with_key(items, "shape"@);
    if d is None {
        Err(NpyError::HeaderMissingDescr)
    } else if f is None {
        Err(NpyError::HeaderMissingFortranOrder)
    } else if s is None {
        Err(NpyError::HeaderInvalidShape)
    } else if !(items[f.unwrap()].1 matches PyValue::Boolean(b) && !b) {
        Err(NpyError::HeaderInvalidFortranOrder)
    } else if !(items[d.unwrap()].1 is Text) {
        Err(NpyError::HeaderInvalidDescr)
    } else if !(items[s.unwrap()].1 matches PyValue::Tuple(t) && all_integers(t@)) {
        Err(NpyError::HeaderInvalidShape)
    } else {
        Ok((d.unwrap(), s.unwrap()))
    }
}

/// Whether `r` is what a header value amounts to: the error that
/// `header_pairs` names, or the element type and the shape that it points
/// at.
pub open spec fn header_result(value: PyValue, r: Result<ParsedHeader, NpyError>) -> bool {
    match value {
        PyValue::Dict(items) => match header_pairs(items@) {
            Ok((d, s)) => {
                &&& r matches Ok(h)
                &&& items@[d].1 matches PyValue::Text(text)
                &&& items@[s].1 matches PyValue::Tuple(t)
                &&& h.descr@ == text@
                &&& h.shape@.len() == t@.len()
                &&& forall|i: int| 0 <= i < t@.len() ==> same_integer(#[trigger] t@[i], h.shape@[i])
            },
            Err(e) => r == Err::<ParsedHeader, NpyError>(e),
        },
        _ => r == Err::<ParsedHeader, NpyError>(NpyError::HeaderNotADict),
    }
}

/// Finds the last pair whose key is the given string.
fn find_key_index(items: &Vec<(PyValue, PyValue)>, name: &str) -> (r: Option<usize>)
    ensures
        match r {
            Some(i) => last_with_key(items@, name@) == Some(i as int),
            None => last_with_key(items@, name@) is None,
        },
{
    let wanted = name.to_owned();
    let mut found: Option<usize> = None;
    let mut i: usize = 0;
    assert(items@.take(0) =~= Seq::empty());
    while i < items.len()
        invariant
            i <= items.len(),
            wanted@ == name@,
            match found {
                Some(k) => last_with_key(items@.take(i as int), name@) == Some(k as int),
                None => last_with_key(items@.take(i as int), name@) is None,
            },
        decreases items.len() - i,
    {
        proof {
            let next = items@.take(i + 1);
            assert(next.drop_last() =~= items@.take(i as int));
            assert(next.last() == items@[i as int]);
        }
        match &items[i].0 {
            PyValue::Text(s) => {
                if s.eq(&wanted) {
                    found = Some(i);
                }
            },
            _ => {},
        }
        i += 1;
    }
    assert(items@.take(i as int) =~= items@);
    found
}

/// Copies the integers of a shape tuple, or reports the first value that
/// is no integer.
fn shape_of(items: &Vec<PyValue>) -> (r: Option<Vec<PyInt>>)
    ensures
        r is Some <==> all_integers(items@),
        r matches Some(shape) ==> shape@.len() == items@.len() && forall|i: int|
            0 <= i < items@.len() ==> same_integer(#[trigger] items@[i], shape@[i]),
{
    let mut shape: Vec<PyInt> = Vec::new();
    let mut i: usize = 0;
    while i < items.len()
        invariant
            i <= items.len(),
            shape@.len() == i,
            forall|j: int| 0 <= j < i ==> same_integer(#[trigger] items@[j], shape@[j]),
        decreases items.len() - i,
    {
        match &items[i] {
            PyValue::Integer(n) => {
                shape.push(PyInt { negative: n.negative, digits: copy_digits(&n.digits) });
            },
            _ => {
                assert(!(items@[i as int] is Integer));
                return None;
            },
        }
        i += 1;
    }
    Some(shape)
}

/// Copies digits.
fn copy_digits(digits: &Vec<u64>) -> (r: Vec<u64>)
    ensures
        r@ == digits@,
{
    let mut out: Vec<u64> = Vec::new();
    let mut i: usize = 0;
    while i < digits.len()
        invariant
            i <= digits.len(),
            out@ == digits@.take(i as int),
        decreases digits.len() - i,
    {
        out.push(digits[i]);
        assert(out@ =~= digits@.take(i + 1));
        i += 1;
    }
    assert(digits@.take(i as int) =~= digits@);
    out
}

/// Reads the element type and the shape out of a parsed header.
///
/// The header must be a dictionary with the keys "descr", "fortran_order"
/// and "shape"; where a key occurs twice the last occurrence counts.  The
/// order must be `False`, the element type a string, and the shape a tuple
/// of integers.
pub fn header_from_value(value: &PyValue) -> (r: Result<ParsedHeader, NpyError>)
    ensures
        header_result(*value, r),
{
    let items = match value {
        PyValue::Dict(items) => items,
        _ => {
            return Err(NpyError::HeaderNotADict);
        },
    };
    proof {
        lemma_last_with_key(items@, "descr"@);
        lemma_last_with_key(items@, "fortran_order"@);
        lemma_last_with_key(items@, "shape"@);
    }
    let descr = match find_key_index(items, "descr") {
        Some(i) => i,
        None => {
            return Err(NpyError::HeaderMissingDescr);
        },
    };
    let fortran_order = match find_key_index(items, "fortran_order") {
        Some(i) => i,
        None => {
            return Err(NpyError::HeaderMissingFortranOrder);
        },
    };
    let shape = match find_key_index(items, "shape") {
        Some(i) => i,
        None => {
            return Err(NpyError::HeaderInvalidShape);
        },
    };
    match &items[fortran_order].1 {
        PyValue::Boolean(false) => {},
        _ => {
            return Err(NpyError::HeaderInvalidFortranOrder);
        },
    }
    let descr = match &items[descr].1 {
        PyValue::Text(text) => text.clone(),
        _ => {
            return Err(NpyError::HeaderInvalidDescr);
        },
    };
    let shape = match &items[shape].1 {
        PyValue::Tuple(t) => match shape_of(t) {
            Some(shape) => shape,
            None => {
                return Err(NpyError::HeaderInvalidShape);
            },
        },
        _ => {
            return Err(NpyError::HeaderInvalidShape);
        },
    };
    Ok(ParsedHeader { descr, shape })
}

/// The six bytes every array file starts with.
pub open spec fn magic_number() -> Seq<u8> {
    seq![0x93u8, 0x4Eu8, 0x55u8, 0x4Du8, 0x50u8, 0x59u8]
}

/// The two version bytes this reader accepts.
pub open spec fn version() -> Seq<u8> {
    seq![1u8, 0u8]
}

/// The length of the header text, from the two bytes that follow the
/// version, low byte first.
pub open spec fn header_length(bytes: Seq<u8>) -> nat {
    (bytes[8] as nat) + 256 * (bytes[9] as nat)
}

/// The bytes of the header text.
pub open spec fn header_bytes(bytes: Seq<u8>) -> Seq<u8> {
    bytes.subrange(10, 10 + header_length(bytes) as int)
}

/// Whether the bytes start with the magic number and the version and hold
/// a header text of the announced length in valid UTF-8.
pub open spec fn well_framed(bytes: Seq<u8>) -> bool {
    &&& bytes.len() >= 10
    &&& bytes.subrange(0, 6) == magic_number()
    &&& bytes.subrange(6, 8) == version()
    &&& bytes.len() >= 10 + header_length(bytes)
    &&& valid_utf8(header_bytes(bytes))
}

/// Whether `e` is what is wrong with the framing of the bytes: the first
/// of too few bytes for the magic number, a wrong magic number, too few
/// bytes for the version, a wrong version, too few bytes for the length or
/// the text, and a text that is not UTF-8.
pub open spec fn frame_error(bytes: Seq<u8>, e: NpyError) -> bool {
    if bytes.len() < 6 {
        e is IoError
    } else if bytes.subrange(0, 6) != magic_number() {
        e matches NpyError::InvalidMagicNumber(m) && m@ == bytes.subrange(0, 6)
    } else if bytes.len() < 8 {
        e is IoError
    } else if bytes.subrange(6, 8) != version() {
        e matches NpyError::InvalidVersion(v) && v@ == bytes.subrange(6, 8)
    } else if bytes.len() < 10 || bytes.len() < 10 + header_length(bytes) {
        e is IoError
    } else {
        e is Utf8Error
    }
}

/// Whether `r` is what a parsed header amounts to, together with the
/// place where the data starts.
pub open spec fn header_outcome(
    value: PyValue,
    bytes: Seq<u8>,
    r: Result<(ParsedHeader, usize), NpyError>,
) -> bool {
    match r {
        Ok((h, at)) => header_result(value, Ok(h)) && at == 10 + header_length(bytes),
        Err(e) => header_result(value, Err(e)),
    }
}

/// Whether `r` can be what reading the header of the bytes gives: the
/// framing error where the framing is wrong; a parser's error where the
/// brackets of the header nest too deep; else the parser's error, or what
/// the literal that the parser returned amounts to as a header.
pub open spec fn header_read(bytes: Seq<u8>, r: Result<(ParsedHeader, usize), NpyError>) -> bool {
    if !well_framed(bytes) {
        r matches Err(e) && frame_error(bytes, e)
    } else if !shallow(header_bytes(bytes)) {
        r matches Err(e) && e is PyLiteral
    } else {
        ||| r matches Err(e) && e is PyLiteral
        ||| exists|value: PyValue| #[trigger] header_outcome(value, bytes, r)
    }
}

/// Copies a run of bytes.
fn copy_bytes(bytes: &[u8], from: usize, to: usize) -> (r: Vec<u8>)
    requires
        from <= to <= bytes@.len(),
    ensures
        r@ == bytes@.subrange(from as int, to as int),
{
    let mut out: Vec<u8> = Vec::new();
    let mut i: usize = from;
    while i < to
        invariant
            from <= i <= to <= bytes@.len(),
            out@ == bytes@.subrange(from as int, i as int),
        decreases to - i,
    {
        out.push(bytes[i]);
        assert(out@ =~= bytes@.subrange(from as int, i + 1));
        i += 1;
    }
    out
}

/// Reads the header of an array file from its first bytes.
///
/// Returns what the header says and the index of the first byte of the
/// data.
pub fn read_header(bytes: &[u8]) -> (r: Result<(ParsedHeader, usize), NpyError>)
    ensures
        header_read(bytes@, r),
{
    let len = bytes.len();
    if len < 6 {
        return Err(NpyError::IoError);
    }
    let magic = [bytes[0], bytes[1], bytes[2], bytes[3], bytes[4], bytes[5]];
    assert(magic@ =~= bytes@.subrange(0, 6));
    if magic[0] != 0x93 || magic[1] != 0x4E || magic[2] != 0x55 || magic[3] != 0x4D || magic[4]
        != 0x50 || magic[5] != 0x59 {
        return Err(NpyError::InvalidMagicNumber(magic));
    }
    assert(magic@ =~= magic_number());
    if len < 8 {
        return Err(NpyError::IoError);
    }
    let found_version = [bytes[6], bytes[7]];
    assert(found_version@ =~= bytes@.subrange(6, 8));
    if found_version[0] != 1 || found_version[1] != 0 {
        return Err(NpyError::InvalidVersion(found_version));
    }
    assert(found_version@ =~= version());
    if len < 10 {
        return Err(NpyError::IoError);
    }
    let low: usize = bytes[8] as usize;
    let high: usize = bytes[9] as usize;
    let header_len: usize = low + 256 * high;
    if len - 10 < header_len {
        return Err(NpyError::IoError);
    }
    let raw = copy_bytes(bytes, 10, 10 + header_len);
    let text = match text_of(raw.as_slice()) {
        Ok(text) => text,
        Err(e) => {
            return Err(NpyError::Utf8Error(e));
        },
    };
    if !is_shallow(raw.as_slice()) {
        return Err(NpyError::PyLiteral(syntax_error("the brackets nest too deep")));
    }
    let text = trim(text);
    // a stretch of a shallow text is shallow; the parser is called on no other
    if !is_shallow(text.as_bytes()) {
        return Err(NpyError::PyLiteral(syntax_error("the brackets nest too deep")));
    }
    let value = match parse_literal(text) {
        Ok(value) => value,
        Err(e) => {
            return Err(NpyError::PyLiteral(e));
        },
    };
    let r = match header_from_value(&value) {
        Ok(header) => Ok((header, 10 + header_len)),
        Err(e) => Err(e),
    };
    assert(header_outcome(value, bytes@, r));
    r
}

/// The order of the bytes of a number in a file.
#[derive(Clone, Copy, Debug)]
pub enum Endian {
    Big,
    Little,
    Native,
}

/// The byte order that the first character of an element type names.
pub open spec fn endian_of(mark: char) -> Option<Endian> {
    if mark == '>' {
        Some(Endian::Big)
    } else if mark == '<' {
        Some(Endian::Little)
    } else if mark == '=' {
        Some(Endian::Native)
    } else {
        None
    }
}

/// The number that four bytes stand for, low byte first.
pub open spec fn le32(b: Seq<u8>) -> u32 {
    (b[0] as u32 + 0x100 * b[1] as u32 + 0x1_0000 * b[2] as u32 + 0x100_0000 * b[3] as u32) as u32
}

/// The number that four bytes stand for, high byte first.
pub open spec fn be32(b: Seq<u8>) -> u32 {
    le32(seq![b[3], b[2], b[1], b[0]])
}

/// The number that eight bytes stand for, low byte first.
pub open spec fn le64(b: Seq<u8>) -> u64 {
    (le32(b.subrange(0, 4)) as u64 + 0x1_0000_0000 * le32(b.subrange(4, 8)) as u64) as u64
}

/// The number that eight bytes stand for, high byte first.
pub open spec fn be64(b: Seq<u8>) -> u64 {
    (be32(b.subrange(4, 8)) as u64 + 0x1_0000_0000 * be32(b.subrange(0, 4)) as u64) as u64
}

/// Whether `value` is what four bytes stand for in the given order; in the
/// machine's own order, that is one of the two others.
pub open spec fn reads32(value: u32, b: Seq<u8>, endian: Endian) -> bool {
    match endian {
        Endian::Big => value == be32(b),
        Endian::Little => value == le32(b),
        Endian::Native => value == be32(b) || value == le32(b),
    }
}

/// Whether `value` is what eight bytes stand for in the given order.
pub open spec fn reads64(value: u64, b: Seq<u8>, endian: Endian) -> bool {
    match endian {
        Endian::Big => value == be64(b),
        Endian::Little => value == le64(b),
        Endian::Native => value == be64(b) || value == le64(b),
    }
}

/// Reads four bytes in the machine's own order with `u32::from_ne_bytes`.
/// Which order that is depends on the machine: the result is the number
/// the bytes stand for low byte first, or high byte first.
#[verifier::external_body]
fn native32(b: [u8; 4]) -> (r: u32)
    ensures
        r == le32(b@) || r == be32(b@),
{
    u32::from_ne_bytes(b)
}

/// Reads eight bytes in the machine's own order with `u64::from_ne_bytes`.
/// Which order that is depends on the machine: the result is the number
/// the bytes stand for low byte first, or high byte first.
#[verifier::external_body]
fn native64(b: [u8; 8]) -> (r: u64)
    ensures
        r == le64(b@) || r == be64(b@),
{
    u64::from_ne_bytes(b)
}

/// Decodes four bytes, low byte first.
fn decode_le32(b0: u8, b1: u8, b2: u8, b3: u8) -> (r: u32)
    ensures
        r == le32(seq![b0, b1, b2, b3]),
{
    b0 as u32 + 0x100 * (b1 as u32) + 0x1_0000 * (b2 as u32) + 0x100_0000 * (b3 as u32)
}

/// The element type of an array file that a Rust type is read from.
pub trait NumpyDtype {
    /// The element type without the byte-order mark, such as `f4`.
    spec fn spec_dtype() -> Seq<char>;

    fn dtype() -> (r: String)
        ensures
            r@ == Self::spec_dtype(),
    ;
}

/// The shape of the array that a Rust type holds.
pub trait NumpyShape {
    spec fn spec_shape() -> Seq<usize>;

    fn shape() -> (r: Vec<usize>)
        ensures
            r@ == Self::spec_shape(),
    ;
}

/// Reads all the numbers of a value from bytes laid out in a given order.
pub trait ReadNumbers: Sized {
    /// How many bytes the numbers of a value take.
    spec fn width() -> nat;

    /// Whether the value holds the numbers that the bytes stand for.
    spec fn holds(&self, bytes: Seq<u8>, endian: Endian) -> bool;

    /// Whether the value is what a read leaves that found too few bytes:
    /// `before` is the value before the read and `bytes` are all the bytes
    /// that were left.
    spec fn cut_short(&self, before: Self, bytes: Seq<u8>, endian: Endian) -> bool;

    /// Reads the value from the bytes at `at`.  Returns the index behind
    /// the last byte read, or an error when the bytes end too early.
    fn read_numbers(&mut self, bytes: &[u8], at: usize, endian: Endian) -> (r: Result<
        usize,
        NpyError,
    >)
        requires
            at <= bytes@.len(),
        ensures
            at + Self::width() <= bytes@.len() ==> r == Ok::<usize, NpyError>(
                (at + Self::width()) as usize,
            ) && final(self).holds(bytes@.subrange(at as int, at + Self::width()), endian),
            at + Self::width() > bytes@.len() ==> r == Err::<usize, NpyError>(NpyError::IoError)
                && final(self).cut_short(
                *old(self),
                bytes@.subrange(at as int, bytes@.len() as int),
                endian,
            ),
    ;
}

/// A 4-byte floating-point number, held by the bits of its encoding.
#[derive(Clone, Copy, Debug)]
pub struct Bits32(pub u32);

/// An 8-byte floating-point number, held by the bits of its encoding.
#[derive(Clone, Copy, Debug)]
pub struct Bits64(pub u64);

impl NumpyDtype for Bits32 {
    open spec fn spec_dtype() -> Seq<char> {
        "f4"@
    }

    fn dtype() -> (r: String) {
        "f4".to_owned()
    }
}

impl NumpyDtype for Bits64 {
    open spec fn spec_dtype() -> Seq<char> {
        "f8"@
    }

    fn dtype() -> (r: String) {
        "f8".to_owned()
    }
}

impl NumpyShape for Bits32 {
    open spec fn spec_shape() -> Seq<usize> {
        Seq::empty()
    }

    fn shape() -> (r: Vec<usize>) {
        Vec::new()
    }
}

impl NumpyShape for Bits64 {
    open spec fn spec_shape() -> Seq<usize> {
        Seq::empty()
    }

    fn shape() -> (r: Vec<usize>) {
        Vec::new()
    }
}

impl ReadNumbers for Bits32 {
    open spec fn width() -> nat {
        4
    }

    open spec fn holds(&self, bytes: Seq<u8>, endian: Endian) -> bool {
        reads32(self.0, bytes, endian)
    }

    /// A number that could not be read keeps its value.
    open spec fn cut_short(&self, before: Self, bytes: Seq<u8>, endian: Endian) -> bool {
        *self == before
    }

    fn read_numbers(&mut self, bytes: &[u8], at: usize, endian: Endian) -> (r: Result<
        usize,
        NpyError,
    >) {
        if bytes.len() - at < 4 {
            return Err(NpyError::IoError);
        }
        let b = [bytes[at], bytes[at + 1], bytes[at + 2], bytes[at + 3]];
        assert(b@ =~= bytes@.subrange(at as int, at + 4));
        assert(b@ =~= seq![b[0], b[1], b[2], b[3]]);
        self.0 =
        match endian {
            Endian::Big => decode_le32(b[3], b[2], b[1], b[0]),
            Endian::Little => decode_le32(b[0], b[1], b[2], b[3]),
            Endian::Native => native32(b),
        };
        Ok(at + 4)
    }
}

impl ReadNumbers for Bits64 {
    open spec fn width() -> nat {
        8
    }

    open spec fn holds(&self, bytes: Seq<u8>, endian: Endian) -> bool {
        reads64(self.0, bytes, endian)
    }

    /// A number that could not be read keeps its value.
    open spec fn cut_short(&self, before: Self, bytes: Seq<u8>, endian: Endian) -> bool {
        *self == before
    }

    fn read_numbers(&mut self, bytes: &[u8], at: usize, endian: Endian) -> (r: Result<
        usize,
        NpyError,
    >) {
        if bytes.len() - at < 8 {
            return Err(NpyError::IoError);
        }
        let b = [
            bytes[at],
            bytes[at + 1],
            bytes[at + 2],
            bytes[at + 3],
            bytes[at + 4],
            bytes[at + 5],
            bytes[at + 6],
            bytes[at + 7],
        ];
        let ghost s = bytes@.subrange(at as int, at + 8);
        assert(b@ =~= s);
        assert(s.subrange(0, 4) =~= seq![b[0], b[1], b[2], b[3]]);
        assert(s.subrange(4, 8) =~= seq![b[4], b[5], b[6], b[7]]);
        self.0 =
        match endian {
            Endian::Big => {
                let high = decode_le32(b[3], b[2], b[1], b[0]);
                let low = decode_le32(b[7], b[6], b[5], b[4]);
                low as u64 + 0x1_0000_0000 * (high as u64)
            },
            Endian::Little => {
                let low = decode_le32(b[0], b[1], b[2], b[3]);
                let high = decode_le32(b[4], b[5], b[6], b[7]);
                low as u64 + 0x1_0000_0000 * (high as u64)
            },
            Endian::Native => native64(b),
        };
        Ok(at + 8)
    }
}

impl<T: NumpyDtype, const M: usize> NumpyDtype for [T; M] {
    open spec fn spec_dtype() -> Seq<char> {
        T::spec_dtype()
    }

    fn dtype() -> (r: String) {
        T::dtype()
    }
}

impl<T: NumpyShape, const M: usize> NumpyShape for [T; M] {
    open spec fn spec_shape() -> Seq<usize> {
        seq![M] + T::spec_shape()
    }

    fn shape() -> (r: Vec<usize>) {
        let inner = T::shape();
        let mut out: Vec<usize> = Vec::new();
        out.push(M);
        let mut i: usize = 0;
        while i < inner.len()
            invariant
                i <= inner.len(),
                out@ == seq![M] + inner@.take(i as int),
            decreases inner.len() - i,
        {
            out.push(inner[i]);
            assert(out@ =~= seq![M] + inner@.take(i + 1));
            i += 1;
        }
        assert(inner@.take(i as int) =~= inner@);
        out
    }
}

impl<T: ReadNumbers, const M: usize> ReadNumbers for [T; M] {
    open spec fn width() -> nat {
        M as nat * T::width()
    }

    open spec fn holds(&self, bytes: Seq<u8>, endian: Endian) -> bool {
        forall|i: int|
            0 <= i < M ==> (#[trigger] self@[i]).holds(
                bytes.subrange(i * T::width(), (i + 1) * T::width()),
                endian,
            )
    }

    /// The elements that the bytes sufficed for hold their numbers, the
    /// first one they did not suffice for is itself cut short, and those
    /// behind it keep their values.
    open spec fn cut_short(&self, before: Self, bytes: Seq<u8>, endian: Endian) -> bool {
        let w = T::width() as int;
        let k = bytes.len() as int / w;
        &&& k < M
        &&& forall|i: int|
            0 <= i < k ==> (#[trigger] self@[i]).holds(bytes.subrange(i * w, (i + 1) * w), endian)
        &&& self@[k].cut_short(before@[k], bytes.subrange(k * w, bytes.len() as int), endian)
        &&& forall|i: int| k < i < M ==> #[trigger] self@[i] == before@[i]
    }

    fn read_numbers(&mut self, bytes: &[u8], at: usize, endian: Endian) -> (r: Result<
        usize,
        NpyError,
    >) {
        let ghost w = T::width() as int;
        let ghost all = bytes@.subrange(at as int, at + M * w);
        let ghost rest = bytes@.subrange(at as int, bytes@.len() as int);
        let len = bytes.len();
        let mut pos: usize = at;
        let mut i: usize = 0;
        while i < M
            invariant
                i <= M,
                w == T::width(),
                pos == at + i * w,
                pos <= bytes@.len(),
                len == bytes@.len(),
                at <= bytes@.len(),
                rest == bytes@.subrange(at as int, bytes@.len() as int),
                forall|j: int|
                    0 <= j < i ==> (#[trigger] self@[j]).holds(
                        bytes@.subrange(at + j * w, at + (j + 1) * w),
                        endian,
                    ),
                forall|j: int| i <= j < M ==> #[trigger] self@[j] == old(self)@[j],
            decreases M - i,
        {
            let ghost before = i as int;
            proof {
                assert((before + 1) * w == before * w + w) by (nonlinear_arith);
                assert((before + 1) * w <= M * w) by (nonlinear_arith)
                    requires
                        before + 1 <= M,
                        w >= 0,
                ;
            }
            match self[i].read_numbers(bytes, pos, endian) {
                Ok(next) => {
                    pos = next;
                },
                Err(e) => {
                    proof {
                        let left = len - at;
                        assert(w > 0);
                        vstd::arithmetic::div_mod::lemma_fundamental_div_mod_converse(
                            left,
                            w,
                            before,
                            left - before * w,
                        );
                        assert(rest.len() == left);
                        assert(rest.subrange(before * w, left) =~= bytes@.subrange(
                            pos as int,
                            len as int,
                        ));
                        assert forall|j: int| 0 <= j < before implies (#[trigger] self@[j]).holds(
                            rest.subrange(j * w, (j + 1) * w),
                            endian,
                        ) by {
                            assert(0 <= j * w && (j + 1) * w <= before * w && (j + 1) * w == j * w
                                + w) by (nonlinear_arith)
                                requires
                                    0 <= j < before,
                                    w >= 0,
                            ;
                            assert(rest.subrange(j * w, (j + 1) * w) =~= bytes@.subrange(
                                at + j * w,
                                at + (j + 1) * w,
                            ));
                        }
                    }
                    return Err(e);
                },
            }
            i += 1;
            assert(i * w == before * w + w) by (nonlinear_arith)
                requires
                    i == before + 1,
            ;
        }
        proof {
            assert forall|j: int| 0 <= j < M implies (#[trigger] self@[j]).holds(
                all.subrange(j * w, (j + 1) * w),
                endian,
            ) by {
                assert(0 <= j * w && (j + 1) * w <= M * w && (j + 1) * w == j * w + w)
                    by (nonlinear_arith)
                    requires
                        0 <= j < M,
                        w >= 0,
                ;
                assert(all.subrange(j * w, (j + 1) * w) =~= bytes@.subrange(
                    at + j * w,
                    at + (j + 1) * w,
                ));
            }
        }
        Ok(pos)
    }
}

/// The integers that the entries of a header's shape stand for.
pub open spec fn extents(shape: Seq<PyInt>) -> Seq<int> {
    Seq::new(shape.len(), |i: int| shape[i].value())
}

/// The integers that the values of a shape tuple stand for.
pub open spec fn tuple_extents(shape: Seq<PyValue>) -> Seq<int> {
    Seq::new(
        shape.len(),
        |i: int|
            match shape[i] {
                PyValue::Integer(n) => n.value(),
                _ => 0,
            },
    )
}

/// Whether the integers of a header's shape are the expected extents.
pub open spec fn shape_matches(expected: Seq<usize>, found: Seq<int>) -> bool {
    &&& expected.len() == found.len()
    &&& forall|i: int| 0 <= i < expected.len() ==> #[trigger] found[i] == expected[i]
}

/// Whether `r` and the value `t` are what reading data of type `T` into a
/// value that was `before` gives, for a header with the given element type
/// and shape and data that starts at `at`.  The first of these decides: a
/// wrong shape, a missing byte-order mark, a wrong element type (each
/// leaves the value as it was), too few bytes (the value is cut short),
/// and success with the numbers read.
pub open spec fn data_read<T: NumpyDtype + NumpyShape + ReadNumbers>(
    descr: Seq<char>,
    shape: Seq<int>,
    bytes: Seq<u8>,
    at: int,
    t: T,
    before: T,
    r: Result<(), NpyError>,
) -> bool {
    if !shape_matches(T::spec_shape(), shape) {
        r == Err::<(), NpyError>(NpyError::WrongShape) && t == before
    } else if descr.len() == 0 || endian_of(descr[0]) is None {
        r == Err::<(), NpyError>(NpyError::InvalidAlignment) && t == before
    } else if descr.subrange(1, descr.len() as int) != T::spec_dtype() {
        r == Err::<(), NpyError>(NpyError::WrongDtype) && t == before
    } else if at + T::width() > bytes.len() {
        r == Err::<(), NpyError>(NpyError::IoError) && t.cut_short(
            before,
            bytes.subrange(at, bytes.len() as int),
            endian_of(descr[0]).unwrap(),
        )
    } else {
        r is Ok && t.holds(bytes.subrange(at, at + T::width()), endian_of(descr[0]).unwrap())
    }
}

/// Whether `r` and the value `t` are what reading an array of type `T`
/// gives, for a file whose header was parsed as the given literal and
/// whose data starts at `at`.  Where the header is refused the value stays
/// as it was.
pub open spec fn value_read<T: NumpyDtype + NumpyShape + ReadNumbers>(
    value: PyValue,
    bytes: Seq<u8>,
    t: T,
    before: T,
    r: Result<(), NpyError>,
) -> bool {
    match value {
        PyValue::Dict(items) => match header_pairs(items@) {
            Ok((d, s)) => {
                &&& items@[d].1 matches PyValue::Text(text)
                &&& items@[s].1 matches PyValue::Tuple(shape)
                &&& data_read::<T>(
                    text@,
                    tuple_extents(shape@),
                    bytes,
                    10 + header_length(bytes) as int,
                    t,
                    before,
                    r,
                )
            },
            Err(e) => r == Err::<(), NpyError>(e) && t == before,
        },
        _ => r == Err::<(), NpyError>(NpyError::HeaderNotADict) && t == before,
    }
}

/// Whether `r` and the value `t` can be what reading an array of type `T`
/// from the bytes of a file into a value that was `before` gives: the
/// framing error where the framing is wrong; a parser's error where the
/// brackets of the header nest too deep; else the parser's error, or what
/// follows from the literal that the parser returned.  On these errors the
/// value stays as it was.
pub open spec fn array_read<T: NumpyDtype + NumpyShape + ReadNumbers>(
    bytes: Seq<u8>,
    t: T,
    before: T,
    r: Result<(), NpyError>,
) -> bool {
    if !well_framed(bytes) {
        r matches Err(e) && frame_error(bytes, e) && t == before
    } else if !shallow(header_bytes(bytes)) {
        r matches Err(e) && e is PyLiteral && t == before
    } else {
        ||| r matches Err(e) && e is PyLiteral && t == before
        ||| exists|value: PyValue| #[trigger] value_read::<T>(value, bytes, t, before, r)
    }
}

/// Tells whether the shape in a header is the expected one.
fn check_shape(expected: &Vec<usize>, found: &Vec<PyInt>) -> (r: bool)
    ensures
        r == shape_matches(expected@, extents(found@)),
{
    if expected.len() != found.len() {
        return false;
    }
    let mut i: usize = 0;
    while i < expected.len()
        invariant
            i <= expected.len(),
            expected@.len() == found@.len(),
            forall|j: int| 0 <= j < i ==> #[trigger] extents(found@)[j] == expected@[j],
        decreases expected.len() - i,
    {
        if !found[i].is_count(expected[i]) {
            assert(extents(found@)[i as int] != expected@[i as int]);
            return false;
        }
        i += 1;
    }
    true
}

/// Reads the byte order off the first character of an element type.
fn parse_endian(mark: char) -> (r: Option<Endian>)
    ensures
        r == endian_of(mark),
{
    if mark == '>' {
        Some(Endian::Big)
    } else if mark == '<' {
        Some(Endian::Little)
    } else if mark == '=' {
        Some(Endian::Native)
    } else {
        None
    }
}

/// Reads the data of an array file into `t`, once its header is known.
///
/// The header's shape must be that of `T`, its element type must start
/// with a byte-order mark and go on with the element type of `T`, and the
/// bytes from `at` on must hold all the numbers of `T`.  Nothing is written
/// to `t` before the header has been found right.
pub fn read_data<T: NumpyDtype + NumpyShape + ReadNumbers>(
    header: &ParsedHeader,
    bytes: &[u8],
    at: usize,
    t: &mut T,
) -> (r: Result<(), NpyError>)
    requires
        at <= bytes@.len(),
    ensures
        data_read::<T>(
            header.descr@,
            extents(header.shape@),
            bytes@,
            at as int,
            *final(t),
            *old(t),
            r,
        ),
{
    let expected_shape = T::shape();
    if !check_shape(&expected_shape, &header.shape) {
        return Err(NpyError::WrongShape);
    }
    let descr = header.descr.as_str();
    let len = descr.unicode_len();
    if len == 0 {
        return Err(NpyError::InvalidAlignment);
    }
    let endian = match parse_endian(descr.get_char(0)) {
        Some(endian) => endian,
        None => {
            return Err(NpyError::InvalidAlignment);
        },
    };
    let rest = descr.substring_char(1, len).to_owned();
    if !T::dtype().eq(&rest) {
        return Err(NpyError::WrongDtype);
    }
    match t.read_numbers(bytes, at, endian) {
        Ok(_) => Ok(()),
        Err(e) => Err(e),
    }
}

/// Reads an array from the bytes of a file into `t`.
///
/// The header is read first, then the data as [`read_data`] reads it.
/// Nothing is written to `t` unless the header is right.
pub fn read<T: NumpyDtype + NumpyShape + ReadNumbers>(bytes: &[u8], t: &mut T) -> (r: Result<
    (),
    NpyError,
>)
    ensures
        array_read::<T>(bytes@, *final(t), *old(t), r),
{
    let found = read_header(bytes);
    let (header, at) = match found {
        Ok(pair) => pair,
        Err(e) => {
            proof {
                if well_framed(bytes@) && !(e is PyLiteral) {
                    let value = choose|value: PyValue| header_outcome(value, bytes@, found);
                    assert(value_read::<T>(value, bytes@, *t, *old(t), Err(e)));
                }
            }
            return Err(e);
        },
    };
    let ghost value = choose|value: PyValue| header_outcome(value, bytes@, found);
    proof {
        match value {
            PyValue::Dict(items) => {
                lemma_last_with_key(items@, "shape"@);
                lemma_last_with_key(items@, "descr"@);
                let s = header_pairs(items@).unwrap().1;
                match items@[s].1 {
                    PyValue::Tuple(tuple) => {
                        assert(tuple_extents(tuple@) =~= extents(header.shape@)) by {
                            assert forall|i: int| 0 <= i < tuple@.len() implies tuple_extents(
                                tuple@,
                            )[i] == extents(header.shape@)[i] by {
                                assert(same_integer(tuple@[i], header.shape@[i]));
                            }
                        }
                    },
                    _ => {},
                }
            },
            _ => {},
        }
    }
    let r = read_data(&header, bytes, at, t);
    assert(value_read::<T>(value, bytes@, *t, *old(t), r));
    r
}

} // verus!
