use vstd::prelude::*;

use crate::model::opt_text;

verus! {

/// What the optional-text box shows: the text, or nothing.
pub open spec fn option_string_shown(data: Option<Seq<char>>) -> Seq<char> {
    match data {
        Some(t) => t,
        None => Seq::empty(),
    }
}

/// What the optional-text box stores for a text typed in: an empty text
/// means no value.
pub open spec fn option_string_stored(inner: Seq<char>) -> Option<Seq<char>> {
    if inner.len() == 0 {
        None
    } else {
        Some(inner)
    }
}

/// The optional-text box's reading of an optional text.
pub fn option_string_get(data: &Option<String>) -> (r: String)
    ensures
        r@ == option_string_shown(opt_text(*data)),
{
    match data {
        Some(text) => text.clone(),
        None => String::new(),
    }
}

/// The optional-text box's writing of a text typed in.
pub fn option_string_put(data: &mut Option<String>, inner: String)
    ensures
        opt_text(*final(data)) == option_string_stored(inner@),
{
    if inner.as_str().is_empty() {
        *data = None;
    } else {
        *data = Some(inner);
    }
}

/// Reading back a text typed in gives that text.
pub proof fn lemma_option_string_put_get(inner: Seq<char>)
    ensures
        option_string_shown(option_string_stored(inner)) == inner,
{
}

/// Storing back what is shown keeps the value, except an empty text, which
/// becomes no value (so `Some("")` is where this fails).
pub proof fn lemma_option_string_get_put(data: Option<Seq<char>>)
    requires
        data != Some(Seq::<char>::empty()),
    ensures
        option_string_stored(option_string_shown(data)) == data,
{
    if let Some(t) = data {
        if t.len() == 0 {
            assert(t =~= Seq::<char>::empty());
        }
    }
}

/// What checking or clearing the box stores.
pub open spec fn option_checkbox_stored(inner: bool) -> Option<Seq<char>> {
    if inner {
        Some("nuttin"@)
    } else {
        None
    }
}

/// The box shows what was last stored with it.
pub proof fn lemma_option_checkbox_put_get(inner: bool)
    ensures
        option_checkbox_stored(inner).is_some() == inner,
{
}

/// The check box beside an optional text: checked when there is a value.
pub fn option_checkbox_get(data: &Option<String>) -> (r: bool)
    ensures
        r == data.is_some(),
{
    match data {
        Some(_) => true,
        None => false,
    }
}

/// Checking the box gives the value "nuttin"; clearing it removes the value.
pub fn option_checkbox_put(data: &mut Option<String>, inner: bool)
    ensures
        opt_text(*final(data)) == option_checkbox_stored(inner),
{
    *data = if inner {
        Some(String::from_str("nuttin"))
    } else {
        None
    };
}

/// The text box beside the check box: the value, or "nutin" when there is
/// none.
pub fn option_text_get(data: &Option<String>) -> (r: String)
    ensures
        r@ == option_text_shown(opt_text(*data)),
{
    match data {
        Some(text) => text.clone(),
        None => String::from_str("nutin"),
    }
}

/// What the text box beside the check box stores for a text typed in.
pub open spec fn option_text_stored(data: Option<Seq<char>>, inner: Seq<char>) -> Option<Seq<char>> {
    match data {
        Some(_) => Some(inner),
        None => None,
    }
}

/// What the text box beside the check box shows.
pub open spec fn option_text_shown(data: Option<Seq<char>>) -> Seq<char> {
    match data {
        Some(t) => t,
        None => "nutin"@,
    }
}

/// Storing back what the text box shows changes nothing, and a text typed
/// in while there is a value is what the box then shows.
pub proof fn lemma_option_text_round_trips(data: Option<Seq<char>>, inner: Seq<char>)
    ensures
        option_text_stored(data, option_text_shown(data)) == data,
        data is Some ==> option_text_shown(option_text_stored(data, inner)) == inner,
{
}

/// Typing in the text box replaces the value when there is one; with no
/// value, nothing changes.
pub fn option_text_put(data: &mut Option<String>, inner: String)
    ensures
        opt_text(*final(data)) == option_text_stored(opt_text(*old(data)), inner@),
{
    match data {
        Some(old_inner) => {
            *old_inner = inner;
        },
        None => {},
    }
}

} // verus!
