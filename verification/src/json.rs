//! The document model for the persisted state file: a structured value with
//! nulls, booleans, numbers, text, arrays and insertion-ordered objects.
//!
//! Numbers carry their literal text unchanged, so a document that is read and
//! written back keeps every unrecognized value exactly as it came, without a
//! numeric round trip.

use vstd::prelude::*;
use crate::omap::OrderedMap;

verus! {

#[derive(Debug)]
pub enum JsonValue {
    Null,
    Bool(bool),
    /// A number, as its literal text.
    Number(String),
    Text(String),
    Array(Vec<JsonValue>),
    Object(OrderedMap<JsonValue>),
}

impl JsonValue {
    pub open spec fn is_object(&self) -> bool {
        self matches JsonValue::Object(_)
    }

    pub open spec fn obj(&self) -> Seq<(String, JsonValue)>
        recommends
            self.is_object(),
    {
        match self {
            JsonValue::Object(m) => m@,
            _ => Seq::empty(),
        }
    }

    pub open spec fn is_text(&self) -> bool {
        self matches JsonValue::Text(_)
    }

    pub open spec fn is_array(&self) -> bool {
        self matches JsonValue::Array(_)
    }

    pub open spec fn arr(&self) -> Seq<JsonValue>
        recommends
            self.is_array(),
    {
        match self {
            JsonValue::Array(v) => v@,
            _ => Seq::empty(),
        }
    }

    pub open spec fn is_bool(&self) -> bool {
        self matches JsonValue::Bool(_)
    }

    pub open spec fn bool_of(&self) -> bool
        recommends
            self.is_bool(),
    {
        match self {
            JsonValue::Bool(b) => *b,
            _ => false,
        }
    }

    pub open spec fn is_null(&self) -> bool {
        self matches JsonValue::Null
    }

    pub open spec fn text(&self) -> Seq<char>
        recommends
            self.is_text(),
    {
        match self {
            JsonValue::Text(s) => s@,
            _ => Seq::empty(),
        }
    }
}

} // verus!
