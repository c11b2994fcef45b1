//! Device identifiers: a vendor id and a product id, sixteen bits each, written as two
//! hexadecimal fields with a colon between them.

use crate::hex::{
    chars_of, hex_in, hex_text, hex_u16, lemma_hex_round_trip, lemma_reading_ignores_case,
    same_ignoring_case, to_hex,
};
use crate::text::Printable;
use vstd::prelude::*;

verus! {

/// The identifier of a USB device.
#[derive(Debug, Clone, Copy, PartialEq, Eq, Structural)]
pub struct DeviceID {
    pub vid: u16,
    pub pid: u16,
}

/// Why a text is not a device identifier.
#[derive(Debug, Clone, PartialEq, Eq)]
pub enum Error {
    /// The text holds no colon.
    MissingSeparator,
    /// The first field, given here, is no sixteen-bit hexadecimal number.
    InvalidVID(String),
    /// The second field, given here, is no sixteen-bit hexadecimal number.
    InvalidPID(String),
}

/// The mathematical value of an [`Error`].
pub enum ErrorView {
    MissingSeparator,
    InvalidVID(Seq<char>),
    InvalidPID(Seq<char>),
}

impl View for Error {
    type V = ErrorView;

    open spec fn view(&self) -> ErrorView {
        match self {
            Error::MissingSeparator => ErrorView::MissingSeparator,
            Error::InvalidVID(token) => ErrorView::InvalidVID(token@),
            Error::InvalidPID(token) => ErrorView::InvalidPID(token@),
        }
    }
}

/// The mathematical value of a parse result.
pub open spec fn result_view(r: Result<DeviceID, Error>) -> Result<DeviceID, ErrorView> {
    match r {
        Ok(id) => Ok(id),
        Err(e) => Err(e@),
    }
}

/// The place of the first colon at or after `from`, and the length of the text when
/// there is none.
pub open spec fn separator_from(s: Seq<char>, from: int) -> int
    decreases s.len() - from,
{
    if from >= s.len() {
        s.len() as int
    } else if s[from] == ':' {
        from
    } else {
        separator_from(s, from + 1)
    }
}

/// The first field: what stands before the first colon.
pub open spec fn vendor_token(s: Seq<char>) -> Seq<char> {
    s.subrange(0, separator_from(s, 0))
}

/// The second field of a text that holds a colon: what stands between the first colon
/// and the next one, or the end of the text.
pub open spec fn product_token(s: Seq<char>) -> Seq<char> {
    let start = separator_from(s, 0) + 1;
    s.subrange(start, separator_from(s, start))
}

/// The identifier that two fields name, or the field that names none, the first one
/// first.
pub open spec fn from_tokens(vendor: Seq<char>, product: Seq<char>) -> Result<
    DeviceID,
    ErrorView,
> {
    match hex_u16(vendor) {
        None => Err(ErrorView::InvalidVID(vendor)),
        Some(vid) => match hex_u16(product) {
            None => Err(ErrorView::InvalidPID(product)),
            Some(pid) => Ok(DeviceID { vid, pid }),
        },
    }
}

/// What a text is read as: without a colon nothing; else its first two fields decide,
/// and what follows a second colon is not looked at.
pub open spec fn parsed(s: Seq<char>) -> Result<DeviceID, ErrorView> {
    if !s.contains(':') {
        Err(ErrorView::MissingSeparator)
    } else {
        from_tokens(vendor_token(s), product_token(s))
    }
}

/// How an identifier is written: both numbers in lower-case base sixteen, a colon
/// between them.
pub open spec fn id_text(id: DeviceID) -> Seq<char> {
    hex_text(id.vid as nat) + seq![':'] + hex_text(id.pid as nat)
}

/// What an [`Error`] says.
pub open spec fn error_text(e: ErrorView) -> Seq<char> {
    match e {
        ErrorView::MissingSeparator => "missing : separator"@,
        ErrorView::InvalidVID(token) => "invalid hex VID "@ + token,
        ErrorView::InvalidPID(token) => "invalid hex PID "@ + token,
    }
}

/// `separator_from` finds the first colon at or after `from`: no colon stands between
/// `from` and the place it names, and that place holds one unless it is the end.
pub proof fn lemma_separator(s: Seq<char>, from: int)
    requires
        0 <= from <= s.len(),
    ensures
        from <= separator_from(s, from) <= s.len(),
        forall|i: int| from <= i < separator_from(s, from) ==> #[trigger] s[i] != ':',
        separator_from(s, from) < s.len() ==> s[separator_from(s, from)] == ':',
    decreases s.len() - from,
{
    if from < s.len() && s[from] != ':' {
        lemma_separator(s, from + 1);
    }
}

/// A text holds a colon exactly when `separator_from` finds one from the start.
pub proof fn lemma_separator_found(s: Seq<char>)
    ensures
        s.contains(':') <==> separator_from(s, 0) < s.len(),
{
    lemma_separator(s, 0);
    if s.contains(':') {
        let i = choose|i: int| 0 <= i < s.len() && s[i] == ':';
        assert(s[i] == ':');
    }
}

/// The separator of a text that starts with a field free of colons, then a colon: it
/// stands right after the field.
pub proof fn lemma_separator_after_field(field: Seq<char>, rest: Seq<char>, from: int)
    requires
        !field.contains(':'),
        0 <= from <= field.len(),
    ensures
        separator_from(field + seq![':'] + rest, from) == field.len(),
    decreases field.len() - from,
{
    let s = field + seq![':'] + rest;
    if from < field.len() {
        assert(s[from] == field[from]);
        assert(field.contains(field[from]));
        lemma_separator_after_field(field, rest, from + 1);
    } else {
        assert(s[from] == ':');
    }
}

/// The separator of a text that ends with a field free of colons: the end of the text.
pub proof fn lemma_separator_absent(head: Seq<char>, field: Seq<char>, from: int)
    requires
        !field.contains(':'),
        head.len() <= from <= head.len() + field.len(),
    ensures
        separator_from(head + field, from) == head.len() + field.len(),
    decreases head.len() + field.len() - from,
{
    let s = head + field;
    if from < s.len() {
        assert(s[from] == field[from - head.len()]);
        assert(field.contains(field[from - head.len()]));
        lemma_separator_absent(head, field, from + 1);
    }
}

/// Two fields with a colon between them are read as those two fields.
pub proof fn lemma_two_fields(vendor: Seq<char>, product: Seq<char>)
    requires
        !vendor.contains(':'),
        !product.contains(':'),
    ensures
        parsed(vendor + seq![':'] + product) == from_tokens(vendor, product),
{
    let s = vendor + seq![':'] + product;
    lemma_separator_after_field(vendor, product, 0);
    let start: int = vendor.len() as int + 1;
    lemma_separator_absent(vendor + seq![':'], product, start);
    assert(s[vendor.len() as int] == ':');
    assert(s.subrange(0, vendor.len() as int) == vendor);
    assert(s.subrange(start, s.len() as int) == product);
}

/// What follows a second colon is not looked at.
pub proof fn lemma_further_fields_ignored(
    vendor: Seq<char>,
    product: Seq<char>,
    rest: Seq<char>,
)
    requires
        !vendor.contains(':'),
        !product.contains(':'),
    ensures
        parsed(vendor + seq![':'] + product + seq![':'] + rest) == from_tokens(vendor, product),
{
    let s = vendor + seq![':'] + product + seq![':'] + rest;
    let tail = product + seq![':'] + rest;
    assert(s == vendor + seq![':'] + tail);
    lemma_separator_after_field(vendor, tail, 0);
    assert(s[vendor.len() as int] == ':');
    assert(s.subrange(0, vendor.len() as int) == vendor);
    let start: int = vendor.len() as int + 1;
    lemma_separator(s, start);
    let at = separator_from(s, start);
    assert(s[start + product.len()] == ':');
    assert(at <= start + product.len());
    if at < start + product.len() {
        assert(s[at] == product[at - start]);
        assert(product.contains(product[at - start]));
    }
    assert(s.subrange(start, start + product.len()) == product);
}

/// A field that is no sixteen-bit hexadecimal number is handed back in the error, and
/// the first field is looked at before the second.
pub proof fn lemma_bad_field_is_named(vendor: Seq<char>, product: Seq<char>)
    requires
        !vendor.contains(':'),
        !product.contains(':'),
    ensures
        hex_u16(vendor) is None ==> parsed(vendor + seq![':'] + product) == Err::<
            DeviceID,
            ErrorView,
        >(ErrorView::InvalidVID(vendor)),
        hex_u16(vendor) is Some && hex_u16(product) is None ==> parsed(
            vendor + seq![':'] + product,
        ) == Err::<DeviceID, ErrorView>(ErrorView::InvalidPID(product)),
{
    lemma_two_fields(vendor, product);
}

/// Every pair of valid hexadecimal fields, in either case, is read as the identifier
/// with those two numbers.
pub proof fn lemma_valid_fields_parse(vendor: Seq<char>, product: Seq<char>)
    requires
        hex_u16(vendor) is Some,
        hex_u16(product) is Some,
    ensures
        parsed(vendor + seq![':'] + product) == Ok::<DeviceID, ErrorView>(
            DeviceID { vid: hex_u16(vendor)->0, pid: hex_u16(product)->0 },
        ),
{
    assert(!vendor.contains(':')) by {
        if vendor.contains(':') {
            let i = choose|i: int| 0 <= i < vendor.len() && vendor[i] == ':';
            assert(crate::hex::digit_value(vendor[i]) is Some);
        }
    }
    assert(!product.contains(':')) by {
        if product.contains(':') {
            let i = choose|i: int| 0 <= i < product.len() && product[i] == ':';
            assert(crate::hex::digit_value(product[i]) is Some);
        }
    }
    lemma_two_fields(vendor, product);
}

/// What is written is read back: every identifier is parsed from its own text.
pub proof fn lemma_text_round_trip(id: DeviceID)
    ensures
        parsed(id_text(id)) == Ok::<DeviceID, ErrorView>(id),
{
    lemma_hex_round_trip(id.vid as nat);
    lemma_hex_round_trip(id.pid as nat);
    lemma_valid_fields_parse(hex_text(id.vid as nat), hex_text(id.pid as nat));
}

/// Case does not count: two texts that differ only in the case of their letters are
/// both read as the same identifier, or both as none.
pub proof fn lemma_parse_ignores_case(s: Seq<char>, t: Seq<char>)
    requires
        same_ignoring_case(s, t),
    ensures
        parsed(s) is Ok <==> parsed(t) is Ok,
        parsed(s) is Ok ==> parsed(s) == parsed(t),
        parsed(s) matches Err(e) ==> (parsed(t) matches Err(f) && (e is MissingSeparator
            <==> f is MissingSeparator) && (e is InvalidVID <==> f is InvalidVID)),
{
    lemma_same_separators(s, t, 0);
    lemma_separator(s, 0);
    lemma_separator_found(s);
    lemma_separator_found(t);
    let first = separator_from(s, 0);
    if first < s.len() {
        lemma_same_separators(s, t, first + 1);
        lemma_separator(s, first + 1);
        let second = separator_from(s, first + 1);
        lemma_reading_ignores_case(s.subrange(0, first), t.subrange(0, first));
        lemma_reading_ignores_case(s.subrange(first + 1, second), t.subrange(first + 1, second));
    }
}

/// Two texts that differ only in case hold their colons at the same places.
pub proof fn lemma_same_separators(s: Seq<char>, t: Seq<char>, from: int)
    requires
        same_ignoring_case(s, t),
        0 <= from <= s.len(),
    ensures
        separator_from(s, from) == separator_from(t, from),
    decreases s.len() - from,
{
    if from < s.len() {
        assert(crate::hex::fold_case(s[from]) == crate::hex::fold_case(t[from]));
        if s[from] != ':' && t[from] != ':' {
            lemma_same_separators(s, t, from + 1);
        }
    }
}

/// Finds the first colon at or after `from`.
fn find_separator(chars: &Vec<char>, from: usize) -> (at: usize)
    requires
        from <= chars.len(),
    ensures
        at == separator_from(chars@, from as int),
        from <= at <= chars.len(),
{
    let mut i: usize = from;
    while i < chars.len()
        invariant
            from <= i <= chars.len(),
            separator_from(chars@, from as int) == separator_from(chars@, i as int),
        decreases chars.len() - i,
    {
        if chars[i] == ':' {
            return i;
        }
        i += 1;
    }
    i
}

/// Reads a device identifier: a vendor id and a product id in base sixteen, in either
/// case, with a colon between them.
///
/// Without a colon the text is refused as `MissingSeparator`. Else the first field
/// must be a sixteen-bit hexadecimal number, or it is handed back in `InvalidVID`, and
/// then the second field, or it is handed back in `InvalidPID`. What follows a second
/// colon is not looked at.
pub fn parse_device(arg: &str) -> (r: Result<DeviceID, Error>)
    ensures
        result_view(r) == parsed(arg@),
        r matches Err(Error::MissingSeparator) <==> !arg@.contains(':'),
{
    let chars = chars_of(arg);
    let first = find_separator(&chars, 0);
    proof {
        lemma_separator_found(arg@);
    }
    if first == chars.len() {
        return Err(Error::MissingSeparator);
    }
    let second = find_separator(&chars, first + 1);
    let vid = match hex_in(&chars, 0, first) {
        None => {
            let token = arg.substring_char(0, first);
            return Err(Error::InvalidVID(String::from_str(token)));
        },
        Some(vid) => vid,
    };
    let pid = match hex_in(&chars, first + 1, second) {
        None => {
            let token = arg.substring_char(first + 1, second);
            return Err(Error::InvalidPID(String::from_str(token)));
        },
        Some(pid) => pid,
    };
    Ok(DeviceID { vid, pid })
}

impl Printable for DeviceID {
    open spec fn text(&self) -> Seq<char> {
        id_text(*self)
    }

    /// Writes the identifier as `vid:pid`, both in lower-case base sixteen.
    fn to_text(&self) -> (written: String) {
        let mut written = to_hex(self.vid);
        proof {
            reveal_strlit(":");
        }
        written.append(":");
        let product = to_hex(self.pid);
        written.append(product.as_str());
        written
    }
}

impl Printable for Error {
    open spec fn text(&self) -> Seq<char> {
        error_text(self@)
    }

    /// Says what is wrong with the text, and names the field that was refused.
    fn to_text(&self) -> (written: String) {
        match self {
            Error::MissingSeparator => String::from_str("missing : separator"),
            Error::InvalidVID(token) => {
                let mut written = String::from_str("invalid hex VID ");
                written.append(token.as_str());
                written
            },
            Error::InvalidPID(token) => {
                let mut written = String::from_str("invalid hex PID ");
                written.append(token.as_str());
                written
            },
        }
    }
}

} // verus!
