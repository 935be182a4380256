//! Settings, by key.

use vstd::prelude::*;

use crate::json;
use crate::model;
use crate::model::Setting;
use crate::text;

verus! {

/// The value of a setting, if it is set.
pub open spec fn value_of(settings: Seq<Setting>, key: Seq<char>) -> Option<Seq<char>> {
    json::lookup(model::setting_pairs(settings), key)
}

/// The value of a setting, or the empty text.
pub open spec fn value_or_empty(settings: Seq<Setting>, key: Seq<char>) -> Seq<char> {
    match value_of(settings, key) {
        Some(v) => v,
        None => Seq::empty(),
    }
}

/// Whether a setting is `1`; `default` if it is not set.
pub open spec fn is_on(settings: Seq<Setting>, key: Seq<char>, default: bool) -> bool {
    match value_of(settings, key) {
        Some(v) => v == "1"@,
        None => default,
    }
}

/// The value of a setting, if it is set.
pub fn read_setting(settings: &Vec<Setting>, key: &str) -> (r: Option<String>)
    ensures
        text::opt_text(r) == value_of(settings@, key@),
{
    let ghost pairs = model::setting_pairs(settings@);
    let mut i: usize = 0;
    assert(pairs.skip(0) == pairs);
    while i < settings.len()
        invariant
            pairs == model::setting_pairs(settings@),
            i <= settings.len(),
            json::lookup(pairs, key@) == json::lookup(pairs.skip(i as int), key@),
        decreases settings.len() - i,
    {
        assert(pairs.skip(i as int).drop_first() == pairs.skip(i + 1));
        if settings[i].key.as_str().eq(key) {
            return Some(settings[i].value.clone());
        }
        i += 1;
    }
    None
}

/// The value of a setting, or the empty text.
pub fn setting_str(settings: &Vec<Setting>, key: &str) -> (r: String)
    ensures
        r@ == value_or_empty(settings@, key@),
{
    match read_setting(settings, key) {
        Some(v) => v,
        None => String::new(),
    }
}

/// Whether a setting is `1`; `default` if it is not set.
pub fn setting_bool(settings: &Vec<Setting>, key: &str, default: bool) -> (b: bool)
    ensures
        b == is_on(settings@, key@, default),
{
    match read_setting(settings, key) {
        Some(v) => v.as_str().eq("1"),
        None => default,
    }
}

} // verus!
