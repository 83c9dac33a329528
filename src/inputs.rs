//! Readers of the two input documents: the per-step private inputs (a JSON
//! array of objects) and the start vector (a JSON object whose field
//! `step_in` holds an array of hex-scalar strings).

use vstd::prelude::*;

verus! {

#[verifier::external_type_specification]
#[verifier::external_body]
pub struct ExJsonValue(serde_json::Value);

/// What `serde_json::from_str` makes of a text, where it is JSON.
pub uninterp spec fn parsed_json(text: Seq<char>) -> Option<serde_json::Value>;

/// The elements of a JSON array, in order.
pub uninterp spec fn array_items(v: serde_json::Value) -> Option<Seq<serde_json::Value>>;

/// The members of a JSON object, in the order in which its map yields them.
pub uninterp spec fn object_entries(v: serde_json::Value) -> Option<Seq<(Seq<char>, serde_json::Value)>>;

/// The member `key` of a JSON object.
pub uninterp spec fn field_value(v: serde_json::Value, key: Seq<char>) -> Option<serde_json::Value>;

/// The text of a JSON string.
pub uninterp spec fn string_value(v: serde_json::Value) -> Option<Seq<char>>;

/// Relies on serde_json::from_str (as a `Value`): the parse of a JSON text,
/// `None` where the text is not JSON.
#[verifier::external_body]
fn parse_json(text: &str) -> (r: Option<serde_json::Value>)
    ensures
        r == parsed_json(text@),
{
    serde_json::from_str::<serde_json::Value>(text).ok()
}

/// Relies on serde_json::Value::as_array: the elements where the value is an array.
#[verifier::external_body]
fn as_array(v: &serde_json::Value) -> (r: Option<Vec<serde_json::Value>>)
    ensures
        match r {
            Some(items) => array_items(*v) == Some(items@),
            None => array_items(*v) is None,
        },
{
    v.as_array().cloned()
}

/// Relies on serde_json::Value::as_object: the members, as pairs, where the
/// value is an object.
#[verifier::external_body]
fn as_object(v: &serde_json::Value) -> (r: Option<Vec<(String, serde_json::Value)>>)
    ensures
        match r {
            Some(es) => object_entries(*v) == Some(entries_view(es@)),
            None => object_entries(*v) is None,
        },
{
    match v.as_object() {
        Some(m) => Some(m.clone().into_iter().collect()),
        None => None,
    }
}

/// Relies on serde_json::Value::get with a `&str` key: the member of that name
/// where the value is an object that has one.
#[verifier::external_body]
fn get_field(v: &serde_json::Value, key: &str) -> (r: Option<serde_json::Value>)
    ensures
        r == field_value(*v, key@),
{
    v.get(key).cloned()
}

/// Relies on serde_json::Value::as_str: the text where the value is a string.
#[verifier::external_body]
fn as_string(v: &serde_json::Value) -> (r: Option<String>)
    ensures
        match r {
            Some(s) => string_value(*v) == Some(s@),
            None => string_value(*v) is None,
        },
{
    match v.as_str() {
        Some(s) => Some(s.to_string()),
        None => None,
    }
}

/// How an input document fails to have the expected shape.
#[derive(Debug, Clone, Copy, PartialEq, Eq, Structural)]
pub enum InputError {
    /// The text is not JSON.
    NotJson,
    /// The private-input document is not an array.
    NotAnArray,
    /// The record at this index of the private-input array is not an object.
    RecordNotAnObject(usize),
    /// The start document has no field `step_in` (or is not an object).
    MissingField,
    /// The field `step_in` does not hold an array.
    FieldNotAnArray,
    /// The element at this index of `step_in` is not a string.
    ElementNotAString(usize),
}

/// The name of the start vector's field.
pub open spec fn start_field() -> Seq<char> {
    seq!['s', 't', 'e', 'p', '_', 'i', 'n']
}

pub open spec fn entries_view(es: Seq<(String, serde_json::Value)>) -> Seq<(Seq<char>, serde_json::Value)> {
    es.map_values(|p: (String, serde_json::Value)| (p.0@, p.1))
}

pub open spec fn records_view(rs: Seq<Vec<(String, serde_json::Value)>>) -> Seq<Seq<(Seq<char>, serde_json::Value)>> {
    rs.map_values(|r: Vec<(String, serde_json::Value)>| entries_view(r@))
}

pub open spec fn strings_view(ss: Seq<String>) -> Seq<Seq<char>> {
    ss.map_values(|s: String| s@)
}

/// The records of the array elements `items`, or the first that is no object.
pub open spec fn records_of(items: Seq<serde_json::Value>) -> Result<Seq<Seq<(Seq<char>, serde_json::Value)>>, InputError>
    decreases items.len(),
{
    if items.len() == 0 {
        Ok(Seq::empty())
    } else {
        match records_of(items.drop_last()) {
            Err(e) => Err(e),
            Ok(rs) => match object_entries(items.last()) {
                None => Err(InputError::RecordNotAnObject((items.len() - 1) as usize)),
                Some(es) => Ok(rs.push(es)),
            },
        }
    }
}

/// The texts of the array elements `items`, or the first that is no string.
pub open spec fn strings_of(items: Seq<serde_json::Value>) -> Result<Seq<Seq<char>>, InputError>
    decreases items.len(),
{
    if items.len() == 0 {
        Ok(Seq::empty())
    } else {
        match strings_of(items.drop_last()) {
            Err(e) => Err(e),
            Ok(ss) => match string_value(items.last()) {
                None => Err(InputError::ElementNotAString((items.len() - 1) as usize)),
                Some(s) => Ok(ss.push(s)),
            },
        }
    }
}

/// What the private-input document `text` holds: one record per array
/// element, in order, each with the element's members.
pub open spec fn circuit_inputs_spec(text: Seq<char>) -> Result<Seq<Seq<(Seq<char>, serde_json::Value)>>, InputError> {
    match parsed_json(text) {
        None => Err(InputError::NotJson),
        Some(doc) => match array_items(doc) {
            None => Err(InputError::NotAnArray),
            Some(items) => records_of(items),
        },
    }
}

/// What the start document `text` holds: the strings of its field `step_in`.
pub open spec fn start_input_spec(text: Seq<char>) -> Result<Seq<Seq<char>>, InputError> {
    match parsed_json(text) {
        None => Err(InputError::NotJson),
        Some(doc) => match field_value(doc, start_field()) {
            None => Err(InputError::MissingField),
            Some(f) => match array_items(f) {
                None => Err(InputError::FieldNotAnArray),
                Some(items) => strings_of(items),
            },
        },
    }
}

proof fn lemma_records_error_stays(s: Seq<serde_json::Value>, k: int)
    requires
        0 <= k <= s.len(),
        records_of(s.subrange(0, k)) is Err,
    ensures
        records_of(s) == records_of(s.subrange(0, k)),
    decreases s.len() - k,
{
    if k < s.len() {
        assert(s.subrange(0, k + 1).drop_last() =~= s.subrange(0, k));
        lemma_records_error_stays(s, k + 1);
    } else {
        assert(s.subrange(0, k) =~= s);
    }
}

proof fn lemma_strings_error_stays(s: Seq<serde_json::Value>, k: int)
    requires
        0 <= k <= s.len(),
        strings_of(s.subrange(0, k)) is Err,
    ensures
        strings_of(s) == strings_of(s.subrange(0, k)),
    decreases s.len() - k,
{
    if k < s.len() {
        assert(s.subrange(0, k + 1).drop_last() =~= s.subrange(0, k));
        lemma_strings_error_stays(s, k + 1);
    } else {
        assert(s.subrange(0, k) =~= s);
    }
}

/// Reads the per-step private inputs from the JSON text of their document:
/// an array of objects, each of which gives one record of its members, in
/// the array's order.
pub fn read_circuit_inputs(text: &str) -> (r: Result<Vec<Vec<(String, serde_json::Value)>>, InputError>)
    ensures
        match r {
            Ok(recs) => circuit_inputs_spec(text@) == Ok::<_, InputError>(records_view(recs@)),
            Err(e) => circuit_inputs_spec(text@) == Err::<Seq<Seq<(Seq<char>, serde_json::Value)>>, _>(e),
        },
{
    let doc = match parse_json(text) {
        Some(d) => d,
        None => return Err(InputError::NotJson),
    };
    let items = match as_array(&doc) {
        Some(xs) => xs,
        None => return Err(InputError::NotAnArray),
    };
    let mut out: Vec<Vec<(String, serde_json::Value)>> = Vec::new();
    let mut i: usize = 0;
    assert(items@.subrange(0, 0) =~= Seq::<serde_json::Value>::empty());
    assert(records_view(out@) =~= Seq::empty());
    while i < items.len()
        invariant
            i <= items.len(),
            array_items(doc) == Some(items@),
            parsed_json(text@) == Some(doc),
            records_of(items@.subrange(0, i as int)) == Ok::<_, InputError>(records_view(out@)),
        decreases items.len() - i,
    {
        assert(items@.subrange(0, i + 1).drop_last() =~= items@.subrange(0, i as int));
        match as_object(&items[i]) {
            None => {
                proof {
                    lemma_records_error_stays(items@, i + 1);
                }
                return Err(InputError::RecordNotAnObject(i));
            },
            Some(es) => {
                let ghost before = out@;
                out.push(es);
                assert(records_view(out@) =~= records_view(before).push(entries_view(es@)));
            },
        }
        i = i + 1;
    }
    assert(items@.subrange(0, items@.len() as int) =~= items@);
    Ok(out)
}

/// Reads the start vector from the JSON text of its document: the strings of
/// the array in its field `step_in`, in order.
pub fn read_start_input(text: &str) -> (r: Result<Vec<String>, InputError>)
    ensures
        match r {
            Ok(ss) => start_input_spec(text@) == Ok::<_, InputError>(strings_view(ss@)),
            Err(e) => start_input_spec(text@) == Err::<Seq<Seq<char>>, _>(e),
        },
{
    let doc = match parse_json(text) {
        Some(d) => d,
        None => return Err(InputError::NotJson),
    };
    proof {
        reveal_strlit("step_in");
    }
    assert("step_in"@ =~= start_field());
    let field = match get_field(&doc, "step_in") {
        Some(f) => f,
        None => return Err(InputError::MissingField),
    };
    let items = match as_array(&field) {
        Some(xs) => xs,
        None => return Err(InputError::FieldNotAnArray),
    };
    let mut out: Vec<String> = Vec::new();
    let mut i: usize = 0;
    assert(items@.subrange(0, 0) =~= Seq::<serde_json::Value>::empty());
    assert(strings_view(out@) =~= Seq::empty());
    while i < items.len()
        invariant
            i <= items.len(),
            array_items(field) == Some(items@),
            field_value(doc, start_field()) == Some(field),
            parsed_json(text@) == Some(doc),
            strings_of(items@.subrange(0, i as int)) == Ok::<_, InputError>(strings_view(out@)),
        decreases items.len() - i,
    {
        assert(items@.subrange(0, i + 1).drop_last() =~= items@.subrange(0, i as int));
        match as_string(&items[i]) {
            None => {
                proof {
                    lemma_strings_error_stays(items@, i + 1);
                }
                return Err(InputError::ElementNotAString(i));
            },
            Some(s) => {
                let ghost before = out@;
                out.push(s);
                assert(strings_view(out@) =~= strings_view(before).push(s@));
            },
        }
        i = i + 1;
    }
    assert(items@.subrange(0, items@.len() as int) =~= items@);
    Ok(out)
}

} // verus!
