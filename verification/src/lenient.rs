//! Lenient reading of tool parameters. Some calling agents JSON-encode
//! boolean fields (`urgent: "true"`); these readers accept the native JSON
//! type and a string that parses back to it, and on failure explain the
//! expected JSON shape.

use vstd::prelude::*;

use crate::text::{
    debug_form, debug_str, is_ws, str_eq, to_ascii_lowercase, to_ascii_lowercase_string, trim,
    trim_end, trim_start, trim_str,
};

verus! {

/// A JSON value as far as the lenient readers look into it: the scalars they
/// accept, and only the kind of everything else.
#[derive(Debug, Clone, PartialEq, Eq)]
pub enum JsonValue {
    Null,
    Bool(bool),
    Number,
    String(String),
    Array,
    Object,
}

/// The name of a JSON value's kind, as error messages print it.
pub open spec fn kind_name(v: JsonValue) -> Seq<char> {
    match v {
        JsonValue::Null => "null"@,
        JsonValue::Bool(_) => "boolean"@,
        JsonValue::Number => "number"@,
        JsonValue::String(_) => "string"@,
        JsonValue::Array => "array"@,
        JsonValue::Object => "object"@,
    }
}

pub fn describe_value(v: &JsonValue) -> (r: &'static str)
    ensures
        r@ == kind_name(*v),
{
    match v {
        JsonValue::Null => "null",
        JsonValue::Bool(_) => "boolean",
        JsonValue::Number => "number",
        JsonValue::String(_) => "string",
        JsonValue::Array => "array",
        JsonValue::Object => "object",
    }
}

/// What an optional boolean parameter reads as: absent or null is `None`, a
/// JSON boolean is itself, the string `true` or `false` (trimmed, any ASCII
/// case) is that boolean; anything else is refused with a hint.
pub open spec fn lenient_bool_spec(v: Option<JsonValue>) -> Result<Option<bool>, Seq<char>> {
    match v {
        None => Ok(None),
        Some(JsonValue::Null) => Ok(None),
        Some(JsonValue::Bool(b)) => Ok(Some(b)),
        Some(JsonValue::String(s)) => {
            let t = to_ascii_lowercase(trim(s@));
            if t == "true"@ {
                Ok(Some(true))
            } else if t == "false"@ {
                Ok(Some(false))
            } else {
                Err(
                    "expected JSON boolean (true or false), got string "@ + debug_form(s@)
                        + " — send a raw JSON boolean, not a string"@,
                )
            }
        },
        Some(other) => Err(
            "expected JSON boolean (true or false), got "@ + kind_name(other)
                + " — send a raw JSON boolean, not "@ + kind_name(other),
        ),
    }
}

/// Reads an optional boolean parameter leniently; `v` is `None` when the key
/// is absent.
pub fn lenient_opt_bool(v: Option<JsonValue>) -> (r: Result<Option<bool>, String>)
    ensures
        match r {
            Ok(b) => lenient_bool_spec(v) == Ok::<Option<bool>, Seq<char>>(b),
            Err(e) => lenient_bool_spec(v) == Err::<Option<bool>, Seq<char>>(e@),
        },
{
    match v {
        None => Ok(None),
        Some(JsonValue::Null) => Ok(None),
        Some(JsonValue::Bool(b)) => Ok(Some(b)),
        Some(JsonValue::String(s)) => {
            let t = to_ascii_lowercase_string(trim_str(s.as_str()));
            if str_eq(t.as_str(), "true") {
                Ok(Some(true))
            } else if str_eq(t.as_str(), "false") {
                Ok(Some(false))
            } else {
                let mut m = String::from_str("expected JSON boolean (true or false), got string ");
                m.append(debug_str(s.as_str()).as_str());
                m.append(" — send a raw JSON boolean, not a string");
                Err(m)
            }
        },
        Some(other) => {
            let k = describe_value(&other);
            let mut m = String::from_str("expected JSON boolean (true or false), got ");
            m.append(k);
            m.append(" — send a raw JSON boolean, not ");
            m.append(k);
            Err(m)
        },
    }
}

/// The text of a boolean.
pub open spec fn bool_text(b: bool) -> Seq<char> {
    if b { "true"@ } else { "false"@ }
}

/// A boolean sent as its string reads back as that boolean, just as the
/// native JSON boolean does.
pub proof fn law_stringified_bool_reads_back(b: bool, s: String)
    requires
        s@ == bool_text(b),
    ensures
        lenient_bool_spec(Some(JsonValue::String(s))) == Ok::<Option<bool>, Seq<char>>(Some(b)),
        lenient_bool_spec(Some(JsonValue::Bool(b))) == Ok::<Option<bool>, Seq<char>>(Some(b)),
{
    reveal_strlit("true");
    reveal_strlit("false");
    let t = s@;
    assert(!is_ws(t[0]));
    assert(trim_start(t) == t);
    assert(!is_ws(t.last()));
    assert(trim_end(t) == t);
    assert(to_ascii_lowercase(t) =~= t);
    if !b {
        assert(t != "true"@);
    }
}

} // verus!
