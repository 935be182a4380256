//! The tray icon.

use vstd::prelude::*;

use crate::text;

verus! {

/// The id of the tray icon.
pub const TRAY_ID: &'static str = "main";

/// The hint at the tray icon, by how much is still to be done.
pub open spec fn tooltip(n: int) -> Seq<char> {
    if n > 0 {
        "업무 체크 — 미체크 "@ + text::signed_decimal(n) + "건"@
    } else {
        "업무 체크 — 미체크 없음"@
    }
}

/// The hint at the tray icon, by how much is still to be done.
pub fn tooltip_text(n: i64) -> (r: String)
    ensures
        r@ == tooltip(n as int),
{
    if n > 0 {
        text::concat3("업무 체크 — 미체크 ", text::signed_text(n).as_str(), "건")
    } else {
        "업무 체크 — 미체크 없음".to_owned()
    }
}

} // verus!
