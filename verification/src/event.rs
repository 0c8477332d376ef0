//! Typed Socket.IO events and their wire format.
//!
//! An event travels as a JSON array whose first element is the event name
//! and whose following elements are the event's fields, in order:
//! `["name", field1, field2, ...]`.  This module names events, frames the
//! JSON texts of their fields into that array, and takes a received array
//! apart again, checking the name and the number of elements.  Turning a
//! field value into JSON text (and back) is the caller's `serde` work.

use crate::json::{json_array_items, json_array_items_of, json_quote, json_string, json_string_of, json_string_text, snake_case, snake_case_of};
use vstd::prelude::*;

verus! {

/// Errors of the event wire format.
#[derive(Debug)]
#[allow(inconsistent_fields)]
pub enum EventError {
    /// The payload is not a JSON array, or a name could not be written.
    Json,
    /// The array is empty: it holds no event name.
    EmptyArray,
    /// The first element of the array is not a string.
    NameNotString,
    /// The array names another event.
    WrongName { expected: String, found: String },
    /// The array holds fewer elements than the event has fields.
    MissingElements { expected: usize, found: usize },
    /// A strict event received more elements than it has fields.
    TrailingElements { expected: usize, found: usize },
}

/// How the elements after an event's fields are treated.
#[derive(Debug, Clone, Copy, PartialEq, Eq, Structural)]
pub enum Trailing {
    /// Extra elements are refused.
    Strict,
    /// Extra elements are ignored.
    Discard,
    /// Extra elements are kept, for a last field that collects them.
    Collect,
}

/// Trait for types emitted and received as Socket.IO events.
///
/// Implemented for each event type (typically by a derive).
pub trait Event: Sized {
    /// The event name (e.g. `"message"`).
    fn name(&self) -> String;

    /// Serializes the event into `["event_name", fields...]`.
    fn to_payload(&self) -> Result<Vec<u8>, EventError>;

    /// Deserializes the event from `["event_name", fields...]`.
    fn from_payload(payload: &[u8]) -> Result<Self, EventError>;
}

/// Parses a typed event from an incoming packet's data: the outcome is the
/// event type's own `from_payload` on `data`.
pub fn from_event<E: Event>(data: &[u8]) -> (r: Result<E, EventError>)
    ensures
        call_ensures(E::from_payload, (data,), r),
{
    E::from_payload(data)
}

/// The name of an event type: the explicit name when given, else the type's
/// identifier in snake case.
pub open spec fn event_name_spec(explicit: Option<Seq<char>>, ident: Seq<char>) -> Seq<char> {
    match explicit {
        Some(n) => n,
        None => snake_case_of(ident),
    }
}

/// Names an event type: `explicit` when given, else `ident` in snake case.
pub fn event_name(explicit: Option<&str>, ident: &str) -> (r: String)
    ensures
        r@ == event_name_spec(
            match explicit {
                Some(n) => Some(n@),
                None => None,
            },
            ident@,
        ),
{
    match explicit {
        Some(n) => n.to_owned(),
        None => snake_case(ident),
    }
}

/// The elements joined by `,`.
pub open spec fn join_commas(items: Seq<Seq<u8>>) -> Seq<u8>
    decreases items.len(),
{
    if items.len() == 0 {
        Seq::empty()
    } else if items.len() == 1 {
        items[0]
    } else {
        join_commas(items.drop_last()) + seq![44u8] + items.last()
    }
}

/// The wire text of an event named `name` with the JSON texts `fields`.
pub open spec fn event_payload_spec(name: Seq<char>, fields: Seq<Seq<u8>>) -> Seq<u8> {
    seq![91u8] + join_commas(seq![json_string_text(name)] + fields) + seq![93u8]
}

/// Frames an event as `["name", field1, field2, ...]` from the fields' JSON texts.
pub fn serialize_event(name: &str, fields: &[Vec<u8>]) -> (r: Result<Vec<u8>, EventError>)
    ensures
        r is Ok,
        r matches Ok(v) ==> v@ == event_payload_spec(name@, fields@.map_values(|b: Vec<u8>| b@)),
{
    let quoted = match json_quote(name) {
        Ok(q) => q,
        Err(_) => {
            return Err(EventError::Json);
        },
    };
    let ghost items = seq![quoted@] + fields@.map_values(|b: Vec<u8>| b@);
    let mut out: Vec<u8> = Vec::new();
    out.push(91u8);
    crate::num::push_bytes(&mut out, quoted.as_slice());
    proof {
        assert(items.take(1) =~= seq![quoted@]);
        assert(out@ =~= seq![91u8] + join_commas(items.take(1)));
    }
    let mut i: usize = 0;
    while i < fields.len()
        invariant
            i <= fields@.len(),
            items == seq![quoted@] + fields@.map_values(|b: Vec<u8>| b@),
            out@ == seq![91u8] + join_commas(items.take(i + 1 as int)),
        decreases fields@.len() - i,
    {
        out.push(44u8);
        crate::num::push_bytes(&mut out, fields[i].as_slice());
        proof {
            assert(items.take(i + 2).drop_last() =~= items.take(i + 1));
            assert(items.take(i + 2).last() == fields@[i as int]@);
            assert(out@ =~= seq![91u8] + join_commas(items.take(i + 2)));
        }
        i = i + 1;
    }
    out.push(93u8);
    proof {
        assert(items.take(fields@.len() + 1 as int) =~= items);
    }
    Ok(out)
}

/// The mathematical value of an [`EventError`].
pub enum EventErrorModel {
    Json,
    EmptyArray,
    NameNotString,
    WrongName(Seq<char>, Seq<char>),
    MissingElements(usize, usize),
    TrailingElements(usize, usize),
}

impl View for EventError {
    type V = EventErrorModel;

    open spec fn view(&self) -> EventErrorModel {
        match self {
            EventError::Json => EventErrorModel::Json,
            EventError::EmptyArray => EventErrorModel::EmptyArray,
            EventError::NameNotString => EventErrorModel::NameNotString,
            EventError::WrongName { expected, found } => EventErrorModel::WrongName(expected@, found@),
            EventError::MissingElements { expected, found } => EventErrorModel::MissingElements(
                *expected,
                *found,
            ),
            EventError::TrailingElements { expected, found } => EventErrorModel::TrailingElements(
                *expected,
                *found,
            ),
        }
    }
}

/// What [`deserialize_event`] gives: the field texts it returns, or why it refuses.
pub open spec fn deserialize_spec(
    payload: Seq<u8>,
    name: Seq<char>,
    fields: usize,
    trailing: Trailing,
) -> Result<Seq<Seq<u8>>, EventErrorModel> {
    match json_array_items_of(payload) {
        None => Err(EventErrorModel::Json),
        Some(items) => {
            if items.len() == 0 {
                Err(EventErrorModel::EmptyArray)
            } else {
                match json_string_of(items[0]) {
                    None => Err(EventErrorModel::NameNotString),
                    Some(found) => {
                        let rest = items.drop_first();
                        if found != name {
                            Err(EventErrorModel::WrongName(name, found))
                        } else if rest.len() < fields {
                            Err(EventErrorModel::MissingElements(fields, rest.len() as usize))
                        } else {
                            match trailing {
                                Trailing::Strict => if rest.len() == fields {
                                    Ok(rest)
                                } else {
                                    Err(EventErrorModel::TrailingElements(fields, rest.len() as usize))
                                },
                                Trailing::Discard => Ok(rest.take(fields as int)),
                                Trailing::Collect => Ok(rest),
                            }
                        }
                    },
                }
            }
        },
    }
}

/// Takes a received event array apart: checks that it is a JSON array whose
/// first element is the string `name` and that it holds at least `fields`
/// more elements, then returns the JSON texts of the field elements.
///
/// With [`Trailing::Strict`] further elements are refused, with
/// [`Trailing::Discard`] they are dropped, with [`Trailing::Collect`] they are
/// returned after the fields.
pub fn deserialize_event(payload: &[u8], name: &str, fields: usize, trailing: Trailing) -> (r: Result<Vec<Vec<u8>>, EventError>)
    ensures
        match r {
            Ok(v) => deserialize_spec(payload@, name@, fields, trailing) == Ok::<Seq<Seq<u8>>, EventErrorModel>(v@.map_values(|b: Vec<u8>| b@)),
            Err(e) => deserialize_spec(payload@, name@, fields, trailing) == Err::<Seq<Seq<u8>>, EventErrorModel>(e@),
        },
{
    let items = match json_array_items(payload) {
        Ok(items) => items,
        Err(_) => {
            return Err(EventError::Json);
        },
    };
    let ghost iv = items@.map_values(|b: Vec<u8>| b@);
    if items.len() == 0 {
        return Err(EventError::EmptyArray);
    }
    let found = match json_string(items[0].as_slice()) {
        Some(s) => s,
        None => {
            return Err(EventError::NameNotString);
        },
    };
    let expected = name.to_owned();
    if found != expected {
        return Err(EventError::WrongName { expected, found });
    }
    let n = items.len() - 1;
    if n < fields {
        return Err(EventError::MissingElements { expected: fields, found: n });
    }
    let keep = match trailing {
        Trailing::Strict => {
            if n != fields {
                return Err(EventError::TrailingElements { expected: fields, found: n });
            }
            n
        },
        Trailing::Discard => fields,
        Trailing::Collect => n,
    };
    let mut out: Vec<Vec<u8>> = Vec::new();
    let mut i: usize = 0;
    while i < keep
        invariant
            i <= keep,
            keep <= n,
            n + 1 == items@.len(),
            iv == items@.map_values(|b: Vec<u8>| b@),
            out@.map_values(|b: Vec<u8>| b@) == iv.drop_first().take(i as int),
        decreases keep - i,
    {
        let item = crate::num::copy_range(items[i + 1].as_slice(), 0, items[i + 1].len());
        let ghost before = out@;
        out.push(item);
        proof {
            assert(items@[i + 1]@.subrange(0, items@[i + 1]@.len() as int) =~= items@[i + 1]@);
            assert(out@.map_values(|b: Vec<u8>| b@) =~= before.map_values(|b: Vec<u8>| b@).push(
                items@[i + 1]@,
            ));
            assert(iv.drop_first().take(i + 1) =~= iv.drop_first().take(i as int).push(
                items@[i + 1]@,
            ));
        }
        i = i + 1;
    }
    proof {
        assert(iv.drop_first().take(n as int) =~= iv.drop_first());
    }
    Ok(out)
}

} // verus!
