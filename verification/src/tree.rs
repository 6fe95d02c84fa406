//! The untyped JSON tree that the oldest files are read through.
use json::JsonValue;
use vstd::string::StringSliceAdditionalSpecFns;
use vstd::prelude::*;

verus! {

/// A JSON document as a mathematical value. Of a number only the kind is kept: nothing
/// here reads its value.
pub enum JsonDoc {
    Null,
    Text(Seq<char>),
    Number,
    Bool(bool),
    Object(Seq<(Seq<char>, JsonDoc)>),
    Array(Seq<JsonDoc>),
}

impl JsonDoc {
    /// The entries of an object, in the order in which the object holds them; none for any
    /// other kind of document.
    pub open spec fn entries(self) -> Seq<(Seq<char>, JsonDoc)> {
        match self {
            JsonDoc::Object(e) => e,
            _ => Seq::empty(),
        }
    }

    /// The members of an array; none for any other kind of document.
    pub open spec fn members(self) -> Seq<JsonDoc> {
        match self {
            JsonDoc::Array(m) => m,
            _ => Seq::empty(),
        }
    }

    /// The last member of an array; null for an empty array and for any other kind of
    /// document.
    pub open spec fn last_member(self) -> JsonDoc {
        if self.members().len() > 0 {
            self.members().last()
        } else {
            JsonDoc::Null
        }
    }

    /// The document without the last member, where it is an array that has one; else the
    /// document itself.
    pub open spec fn without_last(self) -> JsonDoc {
        if self.members().len() > 0 {
            JsonDoc::Array(self.members().drop_last())
        } else {
            self
        }
    }

    /// The number of members of an array or of entries of an object; 0 for any other kind
    /// of document.
    pub open spec fn len(self) -> nat {
        match self {
            JsonDoc::Array(m) => m.len(),
            JsonDoc::Object(e) => e.len(),
            _ => 0,
        }
    }

    /// The value of a boolean; nothing for any other kind of document.
    pub open spec fn as_bool(self) -> Option<bool> {
        match self {
            JsonDoc::Bool(b) => Some(b),
            _ => None,
        }
    }

    /// The characters of a string; nothing for any other kind of document.
    pub open spec fn as_text(self) -> Option<Seq<char>> {
        match self {
            JsonDoc::Text(t) => Some(t),
            _ => None,
        }
    }
}

/// `json::JsonValue`, a parsed JSON document. Verus sees nothing inside a value of it.
#[verifier::external_type_specification]
#[verifier::external_body]
pub struct ExJsonValue(json::JsonValue);

/// `json::Error`, the reason why a text is no JSON document.
#[verifier::external_type_specification]
#[verifier::external_body]
pub struct ExJsonError(json::Error);

/// The document that a `JsonValue` holds.
pub uninterp spec fn json_doc(v: JsonValue) -> JsonDoc;

/// The document that `json::parse` reads from a text, where it reads one.
pub uninterp spec fn json_parsed(text: Seq<char>) -> Option<JsonDoc>;

/// The most digits that the fraction of a number may have to be handed to `json::parse`.
pub const MAX_DIGIT_RUN: usize = 32768;

/// Whether a byte is one of the ten ASCII digits.
pub open spec fn is_digit_byte(b: u8) -> bool {
    48 <= b && b <= 57
}

/// Where a reader stands in a JSON text after some of its bytes.
pub struct Scan {
    /// It stands inside a string.
    pub in_string: bool,
    /// Inside a string, the byte before was a backslash that starts an escape.
    pub escaped: bool,
    /// Outside a string, a `.` and then nothing but digits came last.
    pub in_fraction: bool,
    /// The number of those digits.
    pub digits: nat,
}

/// Where a reader stands before the first byte: outside a string, in no fraction.
pub open spec fn scan_start() -> Scan {
    Scan { in_string: false, escaped: false, in_fraction: false, digits: 0 }
}

/// Where a reader stands after one more byte. A `"` opens a string and, unless it is
/// escaped, closes it; inside a string a backslash escapes the byte that follows. Outside
/// a string a `.` starts a fraction, each digit behind it is counted, and any other byte
/// ends it.
pub open spec fn scan_step(s: Scan, b: u8) -> Scan {
    if s.in_string {
        if s.escaped {
            Scan { escaped: false, ..s }
        } else if b == 92 {
            Scan { escaped: true, ..s }
        } else if b == 34 {
            scan_start()
        } else {
            s
        }
    } else if b == 34 {
        Scan { in_string: true, escaped: false, in_fraction: false, digits: 0 }
    } else if b == 46 {
        Scan { in_string: false, escaped: false, in_fraction: true, digits: 0 }
    } else if s.in_fraction && is_digit_byte(b) {
        Scan { digits: s.digits + 1, ..s }
    } else {
        scan_start()
    }
}

/// Where a reader stands after the first `end` bytes of `bytes`.
pub open spec fn scan(bytes: Seq<u8>, end: int) -> Scan
    decreases end,
{
    if 0 < end <= bytes.len() {
        scan_step(scan(bytes, end - 1), bytes[end - 1])
    } else {
        scan_start()
    }
}

/// No `.` outside a string is followed directly by more than `limit` digits.
pub open spec fn fraction_runs_within(bytes: Seq<u8>, limit: nat) -> bool {
    forall|end: int| 0 <= end <= bytes.len() ==> (#[trigger] scan(bytes, end)).digits <= limit
}

/// Whether no `.` outside a string is followed directly by more than `MAX_DIGIT_RUN`
/// digits. Digits inside a string, and digits that follow no `.`, are not counted.
pub fn fraction_runs_short(text: &str) -> (r: bool)
    ensures
        r == fraction_runs_within(text.spec_bytes(), MAX_DIGIT_RUN as nat),
{
    let bytes = text.as_bytes();
    let mut in_string = false;
    let mut escaped = false;
    let mut in_fraction = false;
    let mut digits: usize = 0;
    let mut i: usize = 0;
    while i < bytes.len()
        invariant
            i <= bytes.len(),
            bytes@ == text.spec_bytes(),
            scan(bytes@, i as int) == (Scan {
                in_string,
                escaped,
                in_fraction,
                digits: digits as nat,
            }),
            digits <= MAX_DIGIT_RUN,
            forall|end: int|
                0 <= end <= i ==> (#[trigger] scan(bytes@, end)).digits <= MAX_DIGIT_RUN as nat,
        decreases bytes.len() - i,
    {
        let b = bytes[i];
        if in_string {
            if escaped {
                escaped = false;
            } else if b == 92 {
                escaped = true;
            } else if b == 34 {
                in_string = false;
                escaped = false;
                in_fraction = false;
                digits = 0;
            }
        } else if b == 34 {
            in_string = true;
            escaped = false;
            in_fraction = false;
            digits = 0;
        } else if b == 46 {
            in_fraction = true;
            escaped = false;
            digits = 0;
        } else if in_fraction && 48 <= b && b <= 57 {
            digits += 1;
            if digits > MAX_DIGIT_RUN {
                assert(scan(bytes@, i + 1).digits > MAX_DIGIT_RUN as nat);
                return false;
            }
        } else {
            in_string = false;
            escaped = false;
            in_fraction = false;
            digits = 0;
        }
        i += 1;
    }
    true
}

/// `json::parse`: reads a text as one JSON document, or refuses it. The contract gives the
/// outcome its name, `json_parsed`, and claims nothing of which texts are documents. The
/// parser counts the digits of a number's fraction in an `i16` and overflows on more than
/// 32768 of them, so a text that holds such a fraction is left out.
pub assume_specification[ json::parse ](source: &str) -> (r: Result<JsonValue, json::Error>)
    requires
        fraction_runs_within(source.spec_bytes(), MAX_DIGIT_RUN as nat),
    ensures
        match r {
            Ok(v) => json_parsed(source@) == Some(json_doc(v)),
            Err(_) => json_parsed(source@) is None,
        },
;

/// `JsonValue::pop`: takes the last member off an array and returns it. On an empty array
/// and on any other kind of value it returns null and changes nothing.
pub assume_specification[ JsonValue::pop ](v: &mut JsonValue) -> (r: JsonValue)
    ensures
        json_doc(r) == json_doc(*old(v)).last_member(),
        json_doc(*final(v)) == json_doc(*old(v)).without_last(),
;

/// `JsonValue::is_object`: whether the value is an object.
pub assume_specification[ JsonValue::is_object ](v: &JsonValue) -> (r: bool)
    ensures
        r == (json_doc(*v) is Object),
;

/// `JsonValue::len`: the number of members of an array or of entries of an object, 0 for
/// any other kind of value.
pub assume_specification[ JsonValue::len ](v: &JsonValue) -> (r: usize)
    ensures
        r == json_doc(*v).len(),
;

/// `JsonValue::as_bool`: the value of a boolean, nothing for any other kind of value.
pub assume_specification[ JsonValue::as_bool ](v: &JsonValue) -> (r: Option<bool>)
    ensures
        r == json_doc(*v).as_bool(),
;

/// `JsonValue::as_str`: the text of a string, nothing for any other kind of value.
pub assume_specification<'a>[ JsonValue::as_str ](v: &'a JsonValue) -> (r: Option<&'a str>)
    ensures
        match r {
            Some(s) => json_doc(*v).as_text() == Some(s@),
            None => json_doc(*v).as_text() is None,
        },
;

/// `JsonValue::entries`: the keys and values of an object in the order in which the object
/// holds them, none for any other kind of value. Each key is handed out as a `String`, each
/// value as a copy.
#[verifier::external_body]
pub(crate) fn json_entries(v: &JsonValue) -> (r: Vec<(String, JsonValue)>)
    ensures
        r@.len() == json_doc(*v).entries().len(),
        forall|i: int|
            0 <= i < r@.len() ==> (#[trigger] r@[i]).0@ == json_doc(*v).entries()[i].0
                && json_doc(r@[i].1) == json_doc(*v).entries()[i].1,
{
    v.entries().map(|(key, value)| (key.to_string(), value.clone())).collect()
}

} // verus!
