//! Global shortcuts: one shows or hides the window, one adds a task quickly.

use vstd::prelude::*;

use crate::text;

verus! {

/// The shortcut that shows or hides the window, where none is set.
pub const DEFAULT_TOGGLE: &'static str = "Ctrl+Alt+W";

/// The shortcut that adds a task quickly, where none is set.
pub const DEFAULT_QUICK: &'static str = "Ctrl+Alt+A";

// ── Shortcuts pressed ───────────────────────────────────

/// What a shortcut does.
#[derive(Debug, Clone, Copy, PartialEq, Eq, Structural)]
pub enum ShortcutAction {
    Nothing,
    ToggleMain,
    OpenQuick,
}

/// What a shortcut does: only being pressed counts, and showing or hiding the
/// window goes before adding a task.
pub fn handle_shortcut(pressed: bool, is_toggle: bool, is_quick: bool) -> (r: ShortcutAction)
    ensures
        r == if pressed && is_toggle {
            ShortcutAction::ToggleMain
        } else if pressed && is_quick {
            ShortcutAction::OpenQuick
        } else {
            ShortcutAction::Nothing
        },
{
    if !pressed {
        return ShortcutAction::Nothing;
    }
    if is_toggle {
        return ShortcutAction::ToggleMain;
    }
    if is_quick {
        ShortcutAction::OpenQuick
    } else {
        ShortcutAction::Nothing
    }
}

/// Whether the window is to be hidden; it is shown otherwise.
pub fn hides_main(visible: bool, focused: bool) -> (b: bool)
    ensures
        b == (visible && focused),
{
    visible && focused
}

// ── Registration at the start ───────────────────────────

/// The shortcut to register at the start: the one that is set, or the default;
/// none if it is empty.
pub open spec fn initial_of(setting: Option<Seq<char>>, default: Seq<char>) -> Option<Seq<char>> {
    let accel = text::trimmed(
        match setting {
            Some(s) => s,
            None => default,
        },
    );
    if accel.len() == 0 {
        None
    } else {
        Some(accel)
    }
}

/// The shortcut to register at the start.
pub fn initial_accel(setting: &Option<String>, default: &str) -> (r: Option<String>)
    ensures
        text::opt_text(r) == initial_of(text::opt_text(*setting), default@),
{
    let accel = match setting {
        Some(s) => text::trim_text(s.as_str()),
        None => text::trim_text(default),
    };
    if accel.as_str().is_empty() {
        None
    } else {
        Some(accel)
    }
}

// ── Changing a shortcut ─────────────────────────────────

/// The setting that holds a shortcut.
pub open spec fn setting_of(kind: Seq<char>) -> Option<Seq<char>> {
    if kind == "toggle"@ {
        Some("hotkey_toggle"@)
    } else if kind == "quick"@ {
        Some("hotkey_quick"@)
    } else {
        None
    }
}

/// How far the change of a shortcut has come: what is to be done next.
pub enum Phase {
    /// Read the new shortcut.
    Parse,
    /// Give the old shortcut up.
    Unregister,
    /// Register the new one.
    Register,
    /// Register the old one again; then report what went wrong.
    Restore(String),
    /// Note the new one, and store it as a setting.
    Store,
    /// Nothing: the change is made.
    Done,
    /// Nothing: the change was refused, for this reason.
    Failed(String),
}

/// How far the change of a shortcut has come.
pub enum PhaseView {
    Parse,
    Unregister,
    Register,
    Restore(Seq<char>),
    Store,
    Done,
    Failed(Seq<char>),
}

impl Phase {
    pub open spec fn view(&self) -> PhaseView {
        match self {
            Phase::Parse => PhaseView::Parse,
            Phase::Unregister => PhaseView::Unregister,
            Phase::Register => PhaseView::Register,
            Phase::Restore(e) => PhaseView::Restore(e@),
            Phase::Store => PhaseView::Store,
            Phase::Done => PhaseView::Done,
            Phase::Failed(e) => PhaseView::Failed(e@),
        }
    }
}

/// The change of a shortcut.
pub struct ChangeView {
    pub setting: Seq<char>,
    pub accel: Seq<char>,
    pub has_old: bool,
    pub phase: PhaseView,
}

/// The change of a shortcut.
pub struct HotkeyChange {
    /// The setting that holds the shortcut.
    pub setting: String,
    /// The new shortcut; empty for none.
    pub accel: String,
    /// Whether there is an old one.
    pub has_old: bool,
    pub phase: Phase,
}

impl HotkeyChange {
    pub open spec fn view(&self) -> ChangeView {
        ChangeView {
            setting: self.setting@,
            accel: self.accel@,
            has_old: self.has_old,
            phase: self.phase.view(),
        }
    }
}

/// The phase once the old shortcut was given up.
pub open spec fn phase_after_old(accel: Seq<char>) -> PhaseView {
    if accel.len() == 0 {
        PhaseView::Store
    } else {
        PhaseView::Register
    }
}

/// The phase once the new shortcut was read.
pub open spec fn phase_after_parse(accel: Seq<char>, has_old: bool) -> PhaseView {
    if has_old {
        PhaseView::Unregister
    } else {
        phase_after_old(accel)
    }
}

/// The phase in which a change begins: an empty shortcut needs no reading.
pub open spec fn first_phase(accel: Seq<char>, has_old: bool) -> PhaseView {
    if accel.len() == 0 {
        phase_after_parse(accel, has_old)
    } else {
        PhaseView::Parse
    }
}

/// The words for a shortcut that cannot be read.
pub open spec fn bad_format(accel: Seq<char>) -> Seq<char> {
    "단축키 형식이 올바르지 않습니다: "@ + accel
}

/// The words for a shortcut that cannot be registered.
pub open spec fn not_registered(e: Seq<char>) -> Seq<char> {
    "단축키 등록 실패: "@ + e
}

/// The phase after what was to be done was done, or failed with an error.
pub open spec fn next_phase(c: ChangeView, error: Option<Seq<char>>) -> PhaseView {
    match c.phase {
        PhaseView::Parse => if error is Some {
            PhaseView::Failed(bad_format(c.accel))
        } else {
            phase_after_parse(c.accel, c.has_old)
        },
        PhaseView::Unregister => phase_after_old(c.accel),
        PhaseView::Register => match error {
            Some(e) => if c.has_old {
                PhaseView::Restore(not_registered(e))
            } else {
                PhaseView::Failed(not_registered(e))
            },
            None => PhaseView::Store,
        },
        PhaseView::Restore(e) => PhaseView::Failed(e),
        PhaseView::Store => match error {
            Some(e) => PhaseView::Failed(e),
            None => PhaseView::Done,
        },
        PhaseView::Done => PhaseView::Done,
        PhaseView::Failed(e) => PhaseView::Failed(e),
    }
}

/// Begins the change of a shortcut; an error if there is no such shortcut.
pub fn set_hotkey(kind: &str, accel: &str, has_old: bool) -> (r: Result<HotkeyChange, String>)
    ensures
        r is Ok <==> setting_of(kind@) is Some,
        r matches Ok(c) ==> c.view() == (ChangeView {
            setting: setting_of(kind@).unwrap(),
            accel: text::trimmed(accel@),
            has_old,
            phase: first_phase(text::trimmed(accel@), has_old),
        }),
        r matches Err(e) ==> e@ == "알 수 없는 단축키 종류: "@ + kind@,
{
    let setting = if kind.eq("toggle") {
        "hotkey_toggle".to_owned()
    } else if kind.eq("quick") {
        "hotkey_quick".to_owned()
    } else {
        return Err(text::concat2("알 수 없는 단축키 종류: ", kind));
    };
    let accel = text::trim_text(accel);
    let phase = if !accel.as_str().is_empty() {
        Phase::Parse
    } else if has_old {
        Phase::Unregister
    } else {
        Phase::Store
    };
    Ok(HotkeyChange { setting, accel, has_old, phase })
}

impl HotkeyChange {
    /// Goes on after what was to be done was done, or failed with an error.
    pub fn advance(self, error: Option<String>) -> (r: HotkeyChange)
        ensures
            r.view() == (ChangeView {
                phase: next_phase(self.view(), text::opt_text(error)),
                ..self.view()
            }),
    {
        let HotkeyChange { setting, accel, has_old, phase } = self;
        let after_old = if accel.as_str().is_empty() {
            Phase::Store
        } else {
            Phase::Register
        };
        let phase = match phase {
            Phase::Parse => match error {
                Some(_) => Phase::Failed(
                    text::concat2("단축키 형식이 올바르지 않습니다: ", accel.as_str()),
                ),
                None => if has_old {
                    Phase::Unregister
                } else {
                    after_old
                },
            },
            Phase::Unregister => after_old,
            Phase::Register => match error {
                Some(e) => {
                    let words = text::concat2("단축키 등록 실패: ", e.as_str());
                    if has_old {
                        Phase::Restore(words)
                    } else {
                        Phase::Failed(words)
                    }
                },
                None => Phase::Store,
            },
            Phase::Restore(e) => Phase::Failed(e),
            Phase::Store => match error {
                Some(e) => Phase::Failed(e),
                None => Phase::Done,
            },
            Phase::Done => Phase::Done,
            Phase::Failed(e) => Phase::Failed(e),
        };
        HotkeyChange { setting, accel, has_old, phase }
    }
}

// ── Laws ────────────────────────────────────────────────

/// What is registered and whether the setting was stored.
pub struct World {
    pub old_active: bool,
    pub new_active: bool,
    pub stored: bool,
}

/// What doing a phase does to the world, if it succeeds or fails. Giving a
/// shortcut up and registering the old one again are taken to succeed.
pub open spec fn effect(w: World, phase: PhaseView, failed: bool) -> World {
    match phase {
        PhaseView::Unregister => World { old_active: false, ..w },
        PhaseView::Register => World { new_active: !failed, ..w },
        PhaseView::Restore(_) => World { old_active: true, ..w },
        PhaseView::Store => World { stored: !failed, ..w },
        _ => w,
    }
}

/// A change and the world after at most `fuel` phases, given what fails.
pub open spec fn run(
    c: ChangeView,
    w: World,
    parse_error: Option<Seq<char>>,
    register_error: Option<Seq<char>>,
    fuel: nat,
) -> (PhaseView, World)
    decreases fuel,
{
    if fuel == 0 || c.phase is Done || c.phase is Failed {
        (c.phase, w)
    } else {
        let error = match c.phase {
            PhaseView::Parse => parse_error,
            PhaseView::Register => register_error,
            _ => None,
        };
        run(
            ChangeView { phase: next_phase(c, error), ..c },
            effect(w, c.phase, error is Some),
            parse_error,
            register_error,
            (fuel - 1) as nat,
        )
    }
}

/// A change ends after at most five steps. It is made and stored if the new
/// shortcut could be read and registered, or is empty. Otherwise it is refused,
/// the old shortcut is what it was, and nothing is stored.
pub proof fn law_refused_change_restores(
    setting: Seq<char>,
    accel: Seq<char>,
    has_old: bool,
    parse_error: Option<Seq<char>>,
    register_error: Option<Seq<char>>,
)
    ensures
        ({
            let c = ChangeView { setting, accel, has_old, phase: first_phase(accel, has_old) };
            let w = World { old_active: has_old, new_active: false, stored: false };
            let (phase, after) = run(c, w, parse_error, register_error, 5);
            let refused = accel.len() > 0 && (parse_error is Some || register_error is Some);
            &&& refused ==> after == w && phase == PhaseView::Failed(
                match parse_error {
                    Some(_) => "단축키 형식이 올바르지 않습니다: "@ + accel,
                    None => "단축키 등록 실패: "@ + register_error.unwrap(),
                },
            )
            &&& !refused ==> phase is Done && after == (World {
                old_active: false,
                new_active: accel.len() > 0,
                stored: true,
            })
        }),
{
    reveal_with_fuel(run, 6);
}

} // verus!
