use vstd::prelude::*;
use crate::base2::{base2_entry, base2_fits, base2_steps, base2_steps_fit};
use crate::collatz::{
    collatz_step, fast_collatz_step, law_fast_orbit_is_odd_part_of_plain, law_orbit_chain,
    odd_filter, check_orbit, fill_collatz, fill_fast_collatz, iterate, orbit_len, orbit_seq, orbit_terminates,
    step_ok, OrbitCheck,
};

verus! {

/// How the main mask row and the trajectory list react to edits.
#[derive(Clone, Copy, PartialEq, Eq, Structural, Debug, Hash, PartialOrd, Ord)]
pub enum EditMode {
    /// The main mask cannot be edited.
    Locked,
    /// The main mask can be edited; the list is left alone.
    Edit,
    /// Edits are kept, and the list follows the Collatz trajectory of the mask.
    AutoCollatz,
    /// Edits are kept, and the list follows the shortened trajectory of the mask.
    AutoFastCollatz,
}

impl Default for EditMode {
    fn default() -> (m: Self)
        ensures
            m == EditMode::Edit,
    {
        EditMode::Edit
    }
}

/// The decimal digits of `n`, most significant first, with no sign or padding.
pub open spec fn decimal(n: nat) -> Seq<char>
    decreases n,
{
    if n < 10 {
        seq![(48 + n) as char]
    } else {
        decimal(n / 10).push((48 + n % 10) as char)
    }
}

/// The number a string of decimal digits stands for.
pub open spec fn digits_value(s: Seq<char>) -> nat
    decreases s.len(),
{
    if s.len() == 0 {
        0
    } else {
        digits_value(s.drop_last()) * 10 + ((s.last() as int - 48) as nat)
    }
}

/// `decimal(n)` is a nonempty string of the characters `0` to `9`, reads back
/// as `n`, and starts with `0` only for `0` itself.
pub proof fn law_decimal_reads_back(n: nat)
    ensures
        decimal(n).len() >= 1,
        forall|i: int|
            0 <= i < decimal(n).len() ==> 48 <= #[trigger] (decimal(n)[i] as int) <= 57,
        digits_value(decimal(n)) == n,
        decimal(n)[0] == '0' ==> n == 0,
    decreases n,
{
    if n < 10 {
        assert(((48 + n) as char) as int == 48 + n);
        assert(decimal(n).drop_last() =~= Seq::<char>::empty());
        assert(digits_value(Seq::<char>::empty()) == 0);
        assert(digits_value(decimal(n)) == digits_value(decimal(n).drop_last()) * 10 + n);
    } else {
        law_decimal_reads_back(n / 10);
        let d = n % 10;
        assert(((48 + d) as char) as int == 48 + d);
        assert(decimal(n).drop_last() =~= decimal(n / 10));
        assert(decimal(n)[0] == decimal(n / 10)[0]);
        assert(decimal(n).last() == (48 + d) as char);
        assert(digits_value(decimal(n)) == digits_value(decimal(n / 10)) * 10 + d);
        assert(n == (n / 10) * 10 + d);
    }
}

/// The one-character string of the decimal digit `d`.
fn digit_str(d: u32) -> (s: &'static str)
    requires
        d < 10,
    ensures
        s@ == seq![(48 + d) as char],
{
    proof {
        reveal_strlit("0");
        reveal_strlit("1");
        reveal_strlit("2");
        reveal_strlit("3");
        reveal_strlit("4");
        reveal_strlit("5");
        reveal_strlit("6");
        reveal_strlit("7");
        reveal_strlit("8");
        reveal_strlit("9");
    }
    match d {
        0 => "0",
        1 => "1",
        2 => "2",
        3 => "3",
        4 => "4",
        5 => "5",
        6 => "6",
        7 => "7",
        8 => "8",
        _ => "9",
    }
}

/// Appends the decimal digits of `n` to `s`.
fn push_decimal(s: &mut String, n: u32)
    ensures
        final(s)@ == old(s)@ + decimal(n as nat),
    decreases n,
{
    if n >= 10 {
        push_decimal(s, n / 10);
    }
    s.append(digit_str(n % 10));
    assert(s@ =~= old(s)@ + decimal(n as nat));
}

/// `prefix` followed by the decimal digits of `index`.
fn index_label(prefix: &str, index: u32) -> (s: String)
    ensures
        s@ == prefix@ + decimal(index as nat),
{
    let mut s = prefix.to_owned();
    push_decimal(&mut s, index);
    s
}

/// The state of the application: a status label, the main mask, the list of
/// masks shown below it, the edit mode, a small test mask and the open tab.
pub struct CollatzApp {
    label: String,
    base_mask: u64,
    masks: Vec<u64>,
    edit_mode: EditMode,
    test_mask: u8,
    tab_index: usize,
}

/// What the application state holds.
pub struct AppView {
    pub label: Seq<char>,
    pub base_mask: u64,
    pub masks: Seq<u64>,
    pub edit_mode: EditMode,
    pub test_mask: u8,
    pub tab_index: usize,
}

impl View for CollatzApp {
    type V = AppView;

    closed spec fn view(&self) -> AppView {
        AppView {
            label: self.label@,
            base_mask: self.base_mask,
            masks: self.masks@,
            edit_mode: self.edit_mode,
            test_mask: self.test_mask,
            tab_index: self.tab_index,
        }
    }
}

/// Something the user did in one frame.
#[derive(Clone, Copy, PartialEq, Eq, Structural, Debug)]
pub enum UiEvent {
    /// The pointer rests on a bit of the test mask.
    TestMaskHovered(u32),
    /// The pointer rests on a bit of the main mask or of a listed mask.
    MaskHovered(u32),
    /// An edit mode was picked from the menu.
    EditModeSelected(EditMode),
    /// "Clear": the main mask becomes `0`.
    Clear,
    /// "Collatz": the list becomes the Collatz trajectory of the main mask.
    Collatz,
    /// "Fast Collatz": the list becomes the shortened trajectory of the main mask.
    FastCollatz,
    /// "Base-2 Steps": the list is overwritten with the base-2 steps.
    Base2Steps,
    /// "<<": the main mask is shifted left by one.
    ShiftLeft,
    /// ">>": the main mask is shifted right by one.
    ShiftRight,
    /// The main mask row was drawn with these bits; `clicked` when a bit was clicked.
    BaseMaskEdited { mask: u64, clicked: bool },
    /// A tab was selected.
    TabSelected(usize),
}

/// The trajectory an edit mode keeps the list on, if any.
pub open spec fn mode_orbit(mode: EditMode, base: u64) -> Option<(bool, u64)> {
    match mode {
        EditMode::AutoCollatz => Some((false, base)),
        EditMode::AutoFastCollatz => Some((true, base)),
        _ => None,
    }
}

/// The list after the edit mode has had its say on it.
pub open spec fn refreshed(mode: EditMode, base: u64, masks: Seq<u64>) -> Seq<u64> {
    match mode_orbit(mode, base) {
        Some((fast, init)) => orbit_seq(fast, init as nat),
        None => masks,
    }
}

/// The state with a new main mask, the list refreshed by the edit mode.
pub open spec fn with_base(v: AppView, base: u64) -> AppView {
    AppView { base_mask: base, masks: refreshed(v.edit_mode, base, v.masks), ..v }
}

/// The trajectory that handling `ev` computes, if any.
pub open spec fn orbit_needed(v: AppView, ev: UiEvent) -> Option<(bool, u64)> {
    match ev {
        UiEvent::EditModeSelected(m) => if m != v.edit_mode {
            mode_orbit(m, v.base_mask)
        } else {
            None
        },
        UiEvent::Clear => mode_orbit(v.edit_mode, 0),
        UiEvent::Collatz => Some((false, v.base_mask)),
        UiEvent::FastCollatz => Some((true, v.base_mask)),
        UiEvent::ShiftLeft => mode_orbit(v.edit_mode, v.base_mask << 1u64),
        UiEvent::ShiftRight => mode_orbit(v.edit_mode, v.base_mask >> 1u64),
        UiEvent::BaseMaskEdited { mask, clicked } => if clicked {
            mode_orbit(v.edit_mode, mask)
        } else {
            None
        },
        _ => None,
    }
}

/// Handling `ev` runs to its end: the trajectory it computes reaches `1`
/// without an arithmetic fault, and the base-2 steps fit.
pub open spec fn event_ok(v: AppView, ev: UiEvent) -> bool {
    &&& orbit_needed(v, ev) matches Some((fast, init)) ==> orbit_terminates(fast, init as nat)
    &&& ev is Base2Steps ==> base2_fits(v.base_mask, v.masks.len())
}

/// The trajectory that handling `ev` computes, if any, takes at most `budget` steps.
pub open spec fn within_budget(v: AppView, ev: UiEvent, budget: u64) -> bool {
    orbit_needed(v, ev) matches Some((fast, init)) ==> orbit_len(fast, init as nat) <= budget
}

/// The state after handling `ev`.
pub open spec fn next_view(v: AppView, ev: UiEvent) -> AppView {
    match ev {
        UiEvent::TestMaskHovered(i) => AppView { label: "Interact Index: "@ + decimal(i as nat), ..v },
        UiEvent::MaskHovered(i) => AppView { label: "Interact index: "@ + decimal(i as nat), ..v },
        UiEvent::EditModeSelected(m) => if m == v.edit_mode {
            v
        } else {
            AppView { edit_mode: m, masks: refreshed(m, v.base_mask, v.masks), ..v }
        },
        UiEvent::Clear => with_base(v, 0),
        UiEvent::Collatz => AppView { masks: orbit_seq(false, v.base_mask as nat), ..v },
        UiEvent::FastCollatz => AppView { masks: orbit_seq(true, v.base_mask as nat), ..v },
        UiEvent::Base2Steps => AppView {
            masks: Seq::new(
                v.masks.len(),
                |idx: int| base2_entry(v.base_mask, v.masks.len(), idx),
            ),
            ..v
        },
        UiEvent::ShiftLeft => with_base(v, v.base_mask << 1u64),
        UiEvent::ShiftRight => with_base(v, v.base_mask >> 1u64),
        UiEvent::BaseMaskEdited { mask, clicked } => match v.edit_mode {
            EditMode::Locked => v,
            EditMode::Edit => AppView { base_mask: mask, ..v },
            _ => AppView {
                base_mask: mask,
                masks: if clicked {
                    refreshed(v.edit_mode, mask, v.masks)
                } else {
                    v.masks
                },
                ..v
            },
        },
        UiEvent::TabSelected(t) => AppView { tab_index: t, ..v },
    }
}

/// The state a fresh application starts in.
pub open spec fn default_view() -> AppView {
    AppView {
        label: "Hello World!"@,
        base_mask: 0,
        masks: seq![0u64],
        edit_mode: EditMode::Edit,
        test_mask: 0,
        tab_index: 0,
    }
}

impl Default for CollatzApp {
    fn default() -> (app: Self)
        ensures
            app@ == default_view(),
    {
        let mut masks = Vec::new();
        masks.push(0);
        assert(masks@ =~= seq![0u64]);
        CollatzApp {
            label: "Hello World!".to_owned(),
            base_mask: 0,
            masks,
            edit_mode: EditMode::Edit,
            test_mask: 0,
            tab_index: 0,
        }
    }
}

/// Why an event could not be handled.
#[derive(Clone, Copy, PartialEq, Eq, Structural, Debug)]
pub enum EventFault {
    /// Handling the event meets an arithmetic fault or an index out of bounds.
    Panics,
    /// The trajectory did not settle within the step budget.
    Undecided,
}

impl CollatzApp {
    /// A state made of its parts.
    pub fn from_parts(
        label: String,
        base_mask: u64,
        masks: Vec<u64>,
        edit_mode: EditMode,
        test_mask: u8,
        tab_index: usize,
    ) -> (app: Self)
        ensures
            app@ == (AppView {
                label: label@,
                base_mask,
                masks: masks@,
                edit_mode,
                test_mask,
                tab_index,
            }),
    {
        CollatzApp { label, base_mask, masks, edit_mode, test_mask, tab_index }
    }

    pub fn label(&self) -> (s: &String)
        ensures
            s@ == self@.label,
    {
        &self.label
    }

    pub fn base_mask(&self) -> (m: u64)
        ensures
            m == self@.base_mask,
    {
        self.base_mask
    }

    pub fn masks(&self) -> (m: &Vec<u64>)
        ensures
            m@ == self@.masks,
    {
        &self.masks
    }

    pub fn edit_mode(&self) -> (m: EditMode)
        ensures
            m == self@.edit_mode,
    {
        self.edit_mode
    }

    pub fn test_mask(&self) -> (m: u8)
        ensures
            m == self@.test_mask,
    {
        self.test_mask
    }

    pub fn tab_index(&self) -> (t: usize)
        ensures
            t == self@.tab_index,
    {
        self.tab_index
    }

    /// Brings the list in line with the edit mode: the automatic modes refill
    /// it with the trajectory of the main mask, the others leave it alone.
    pub fn on_mask_update(&mut self)
        requires
            mode_orbit(old(self)@.edit_mode, old(self)@.base_mask) matches Some((fast, init))
                ==> orbit_terminates(fast, init as nat),
        ensures
            final(self)@ == with_base(old(self)@, old(self)@.base_mask),
    {
        match self.edit_mode {
            EditMode::Locked => {},
            EditMode::Edit => {},
            EditMode::AutoCollatz => {
                fill_collatz(self.base_mask, &mut self.masks);
            },
            EditMode::AutoFastCollatz => {
                fill_fast_collatz(self.base_mask, &mut self.masks);
            },
        }
    }

    /// Brings the list in line with the edit mode when its trajectory, if any,
    /// reaches `1` within `budget` steps without a fault; leaves the state
    /// alone otherwise.
    pub fn try_on_mask_update(&mut self, budget: u64) -> (r: Result<(), EventFault>)
        ensures
            r is Ok <==> (mode_orbit(old(self)@.edit_mode, old(self)@.base_mask) matches Some((fast, init))
                ==> orbit_terminates(fast, init as nat) && orbit_len(fast, init as nat) <= budget),
            r is Ok ==> final(self)@ == with_base(old(self)@, old(self)@.base_mask),
            r is Err ==> final(self)@ == old(self)@,
            r == Err::<(), EventFault>(EventFault::Panics) ==> (mode_orbit(
                old(self)@.edit_mode,
                old(self)@.base_mask,
            ) matches Some((fast, init)) && !orbit_terminates(fast, init as nat)),
    {
        let fast = match self.edit_mode {
            EditMode::AutoCollatz => false,
            EditMode::AutoFastCollatz => true,
            _ => {
                self.on_mask_update();
                return Ok(());
            },
        };
        match check_orbit(fast, self.base_mask, budget) {
            OrbitCheck::Reaches(_) => {
                self.on_mask_update();
                Ok(())
            },
            OrbitCheck::Faults => Err(EventFault::Panics),
            OrbitCheck::Undecided => Err(EventFault::Undecided),
        }
    }

    /// Handles one user action.
    pub fn apply(&mut self, ev: UiEvent)
        requires
            event_ok(old(self)@, ev),
        ensures
            final(self)@ == next_view(old(self)@, ev),
            ev is Collatz ==> final(self)@.masks == orbit_seq(false, old(self)@.base_mask as nat),
            ev is FastCollatz ==> final(self)@.masks == orbit_seq(true, old(self)@.base_mask as nat),
            ev matches UiEvent::EditModeSelected(m) ==> final(self)@.edit_mode == m,
            ev == UiEvent::EditModeSelected(EditMode::AutoCollatz) && old(self)@.edit_mode
                != EditMode::AutoCollatz ==> final(self)@.masks == orbit_seq(
                false,
                old(self)@.base_mask as nat,
            ),
            ev == UiEvent::EditModeSelected(EditMode::AutoFastCollatz) && old(self)@.edit_mode
                != EditMode::AutoFastCollatz ==> final(self)@.masks == orbit_seq(
                true,
                old(self)@.base_mask as nat,
            ),
            ev matches UiEvent::BaseMaskEdited { mask, clicked } ==> (old(self)@.edit_mode
                == EditMode::AutoCollatz && clicked ==> final(self)@.masks == orbit_seq(
                false,
                mask as nat,
            )) && (old(self)@.edit_mode == EditMode::AutoFastCollatz && clicked
                ==> final(self)@.masks == orbit_seq(true, mask as nat)),
    {
        match ev {
            UiEvent::TestMaskHovered(i) => {
                self.label = index_label("Interact Index: ", i);
            },
            UiEvent::MaskHovered(i) => {
                self.label = index_label("Interact index: ", i);
            },
            UiEvent::EditModeSelected(m) => {
                if m != self.edit_mode {
                    self.edit_mode = m;
                    self.on_mask_update();
                }
            },
            UiEvent::Clear => {
                self.base_mask = 0;
                self.on_mask_update();
            },
            UiEvent::Collatz => {
                fill_collatz(self.base_mask, &mut self.masks);
            },
            UiEvent::FastCollatz => {
                fill_fast_collatz(self.base_mask, &mut self.masks);
            },
            UiEvent::Base2Steps => {
                base2_steps(self.base_mask, &mut self.masks);
                assert(self.masks@ =~= next_view(old(self)@, ev).masks);
            },
            UiEvent::ShiftLeft => {
                self.base_mask = self.base_mask << 1;
                self.on_mask_update();
            },
            UiEvent::ShiftRight => {
                self.base_mask = self.base_mask >> 1;
                self.on_mask_update();
            },
            UiEvent::BaseMaskEdited { mask, clicked } => {
                match self.edit_mode {
                    EditMode::Locked => {},
                    EditMode::Edit => {
                        self.base_mask = mask;
                    },
                    EditMode::AutoCollatz => {
                        self.base_mask = mask;
                        if clicked {
                            fill_collatz(self.base_mask, &mut self.masks);
                        }
                    },
                    EditMode::AutoFastCollatz => {
                        self.base_mask = mask;
                        if clicked {
                            fill_fast_collatz(self.base_mask, &mut self.masks);
                        }
                    },
                }
            },
            UiEvent::TabSelected(t) => {
                self.tab_index = t;
            },
        }
    }

    /// The trajectory that handling `ev` computes, if any.
    fn needed_orbit(&self, ev: UiEvent) -> (o: Option<(bool, u64)>)
        ensures
            o == orbit_needed(self@, ev),
    {
        let mode = match ev {
            UiEvent::EditModeSelected(m) => {
                if m != self.edit_mode {
                    m
                } else {
                    return None;
                }
            },
            UiEvent::Collatz => {
                return Some((false, self.base_mask));
            },
            UiEvent::FastCollatz => {
                return Some((true, self.base_mask));
            },
            _ => self.edit_mode,
        };
        let base = match ev {
            UiEvent::EditModeSelected(_) => self.base_mask,
            UiEvent::Clear => 0,
            UiEvent::ShiftLeft => self.base_mask << 1,
            UiEvent::ShiftRight => self.base_mask >> 1,
            UiEvent::BaseMaskEdited { mask, clicked } => {
                if clicked {
                    mask
                } else {
                    return None;
                }
            },
            _ => {
                return None;
            },
        };
        match mode {
            EditMode::AutoCollatz => Some((false, base)),
            EditMode::AutoFastCollatz => Some((true, base)),
            _ => None,
        }
    }

    /// Handles one user action when it can run to its end: checks the
    /// trajectory it computes, following it for at most `budget` steps, and
    /// the fit of the base-2 steps. Leaves the state alone otherwise.
    pub fn try_apply(&mut self, ev: UiEvent, budget: u64) -> (r: Result<(), EventFault>)
        ensures
            r is Ok <==> event_ok(old(self)@, ev) && within_budget(old(self)@, ev, budget),
            r is Ok ==> final(self)@ == next_view(old(self)@, ev),
            r is Err ==> final(self)@ == old(self)@,
            r == Err::<(), EventFault>(EventFault::Panics) ==> !event_ok(old(self)@, ev),
            r == Err::<(), EventFault>(EventFault::Undecided) ==> (orbit_needed(old(self)@, ev) matches Some((fast, init))
                && (forall|j: nat| j < budget ==> step_ok(fast, #[trigger] iterate(fast, init as nat, j)))
                && (forall|j: nat| 1 <= j <= budget ==> #[trigger] iterate(fast, init as nat, j) != 1)),
    {
        if let UiEvent::Base2Steps = ev {
            if !base2_steps_fit(self.base_mask, self.masks.len()) {
                return Err(EventFault::Panics);
            }
        }
        match self.needed_orbit(ev) {
            Some((fast, init)) => {
                match check_orbit(fast, init, budget) {
                    OrbitCheck::Reaches(_) => {},
                    OrbitCheck::Faults => {
                        return Err(EventFault::Panics);
                    },
                    OrbitCheck::Undecided => {
                        return Err(EventFault::Undecided);
                    },
                }
            },
            None => {},
        }
        self.apply(ev);
        Ok(())
    }
}


/// In the locked mode an edit of the main mask row changes nothing, clicked or not.
pub proof fn law_locked_ignores_mask_edits(v: AppView, mask: u64, clicked: bool)
    requires
        v.edit_mode == EditMode::Locked,
    ensures
        event_ok(v, UiEvent::BaseMaskEdited { mask, clicked }),
        next_view(v, UiEvent::BaseMaskEdited { mask, clicked }) == v,
{
}

/// Picking the edit mode already in force changes nothing.
pub proof fn law_reselecting_mode_is_noop(v: AppView)
    ensures
        event_ok(v, UiEvent::EditModeSelected(v.edit_mode)),
        next_view(v, UiEvent::EditModeSelected(v.edit_mode)) == v,
{
}

/// Outside the automatic modes, changing the main mask never touches the list.
pub proof fn law_manual_modes_keep_list(v: AppView, ev: UiEvent)
    requires
        v.edit_mode == EditMode::Locked || v.edit_mode == EditMode::Edit,
        ev is Clear || ev is ShiftLeft || ev is ShiftRight || ev is BaseMaskEdited,
    ensures
        event_ok(v, ev),
        next_view(v, ev).masks == v.masks,
        next_view(v, ev).edit_mode == v.edit_mode,
{
}

/// In an automatic mode, after the main mask changes by a button the list is
/// the trajectory of the new main mask.
pub proof fn law_auto_modes_follow_base(v: AppView, ev: UiEvent)
    requires
        v.edit_mode == EditMode::AutoCollatz || v.edit_mode == EditMode::AutoFastCollatz,
        ev is Clear || ev is ShiftLeft || ev is ShiftRight,
    ensures
        next_view(v, ev).masks == orbit_seq(
            v.edit_mode == EditMode::AutoFastCollatz,
            next_view(v, ev).base_mask as nat,
        ),
{
}

/// Bringing the list in line with the edit mode a second time changes nothing.
pub proof fn law_refresh_is_idempotent(v: AppView)
    ensures
        with_base(with_base(v, v.base_mask), v.base_mask) == with_base(v, v.base_mask),
{
}

/// Hovering a bit changes the status label and nothing else; selecting a tab
/// changes the tab and nothing else.
pub proof fn law_hover_and_tabs_touch_one_field(v: AppView, ev: UiEvent)
    requires
        ev is TestMaskHovered || ev is MaskHovered || ev is TabSelected,
    ensures
        event_ok(v, ev),
        next_view(v, ev).base_mask == v.base_mask,
        next_view(v, ev).masks == v.masks,
        next_view(v, ev).edit_mode == v.edit_mode,
        next_view(v, ev).test_mask == v.test_mask,
        ev is TabSelected ==> next_view(v, ev).label == v.label,
        !(ev is TabSelected) ==> next_view(v, ev).tab_index == v.tab_index,
{
}

/// The base-2 steps keep the length of the list.
pub proof fn law_base2_keeps_length(v: AppView)
    ensures
        next_view(v, UiEvent::Base2Steps).masks.len() == v.masks.len(),
        next_view(v, UiEvent::Base2Steps).base_mask == v.base_mask,
{
}


/// The "Collatz" button puts the plain trajectory of the main mask in the list
/// and "Fast Collatz" the shortened one, whatever the edit mode, and nothing
/// else changes. The plain list starts one plain step from the main mask and
/// ends at its first `1`; the fast list is the odd values of the plain one.
pub proof fn law_buttons_fill_trajectories(v: AppView)
    ensures
        next_view(v, UiEvent::Collatz).masks == orbit_seq(false, v.base_mask as nat),
        next_view(v, UiEvent::FastCollatz).masks == orbit_seq(true, v.base_mask as nat),
        next_view(v, UiEvent::Collatz).base_mask == v.base_mask,
        next_view(v, UiEvent::Collatz).edit_mode == v.edit_mode,
        next_view(v, UiEvent::Collatz).label == v.label,
        next_view(v, UiEvent::FastCollatz).base_mask == v.base_mask,
        next_view(v, UiEvent::FastCollatz).edit_mode == v.edit_mode,
        next_view(v, UiEvent::FastCollatz).label == v.label,
        orbit_terminates(false, v.base_mask as nat) ==> {
            let plain = next_view(v, UiEvent::Collatz).masks;
            &&& plain.len() >= 1
            &&& plain[0] as nat == collatz_step(v.base_mask as nat)
            &&& plain.last() == 1
            &&& next_view(v, UiEvent::FastCollatz).masks == odd_filter(plain)
        },
{
    if orbit_terminates(false, v.base_mask as nat) {
        law_orbit_chain(false, v.base_mask as nat);
        law_fast_orbit_is_odd_part_of_plain(v.base_mask as nat);
    }
}

/// Picking an edit mode other than the current one switches to it and keeps the
/// main mask; an automatic mode then puts its own trajectory of the main mask
/// in the list (the plain one for Auto Collatz, the shortened one for Auto
/// Fast Collatz), while Edit and Locked leave the list as it was.
pub proof fn law_mode_switch_refreshes(v: AppView, m: EditMode)
    requires
        m != v.edit_mode,
    ensures
        next_view(v, UiEvent::EditModeSelected(m)).edit_mode == m,
        next_view(v, UiEvent::EditModeSelected(m)).base_mask == v.base_mask,
        m == EditMode::AutoCollatz ==> next_view(v, UiEvent::EditModeSelected(m)).masks
            == orbit_seq(false, v.base_mask as nat),
        m == EditMode::AutoFastCollatz ==> next_view(v, UiEvent::EditModeSelected(m)).masks
            == orbit_seq(true, v.base_mask as nat),
        (m == EditMode::Edit || m == EditMode::Locked) ==> next_view(
            v,
            UiEvent::EditModeSelected(m),
        ).masks == v.masks,
{
}

/// An edit of the main mask row is kept in every mode but Locked. In an
/// automatic mode a clicked edit puts the trajectory of the new mask in the
/// list (plain for Auto Collatz, shortened for Auto Fast Collatz); an edit
/// without a click, or any edit in Edit mode, leaves the list alone.
pub proof fn law_mask_edits(v: AppView, mask: u64, clicked: bool)
    ensures
        v.edit_mode != EditMode::Locked ==> next_view(
            v,
            UiEvent::BaseMaskEdited { mask, clicked },
        ).base_mask == mask,
        v.edit_mode == EditMode::AutoCollatz && clicked ==> next_view(
            v,
            UiEvent::BaseMaskEdited { mask, clicked },
        ).masks == orbit_seq(false, mask as nat),
        v.edit_mode == EditMode::AutoFastCollatz && clicked ==> next_view(
            v,
            UiEvent::BaseMaskEdited { mask, clicked },
        ).masks == orbit_seq(true, mask as nat),
        (v.edit_mode == EditMode::Edit || !clicked) ==> next_view(
            v,
            UiEvent::BaseMaskEdited { mask, clicked },
        ).masks == v.masks,
        next_view(v, UiEvent::BaseMaskEdited { mask, clicked }).edit_mode == v.edit_mode,
        next_view(v, UiEvent::BaseMaskEdited { mask, clicked }).label == v.label,
{
}

/// "Clear" sets the main mask to `0`, "<<" doubles it modulo 2^64 and ">>"
/// halves it; in an automatic mode the list then follows the new mask.
pub proof fn law_mask_buttons(v: AppView)
    ensures
        next_view(v, UiEvent::Clear).base_mask == 0,
        next_view(v, UiEvent::ShiftLeft).base_mask as int == (2 * v.base_mask)
            % 0x1_0000_0000_0000_0000,
        next_view(v, UiEvent::ShiftRight).base_mask == v.base_mask / 2,
        forall|ev: UiEvent|
            (ev is Clear || ev is ShiftLeft || ev is ShiftRight) ==> {
                &&& #[trigger] next_view(v, ev).edit_mode == v.edit_mode
                &&& v.edit_mode == EditMode::AutoCollatz ==> next_view(v, ev).masks
                    == orbit_seq(false, next_view(v, ev).base_mask as nat)
                &&& v.edit_mode == EditMode::AutoFastCollatz ==> next_view(v, ev).masks
                    == orbit_seq(true, next_view(v, ev).base_mask as nat)
            },
{
    let b = v.base_mask;
    assert((b << 1u64) as int == (2 * b) % 0x1_0000_0000_0000_0000 && b >> 1u64 == b / 2)
        by (bit_vector);
}


/// Hovering a bit of the test mask or of any other mask row writes its index
/// into the status label, in decimal after a fixed prefix; selecting a tab
/// records it.
pub proof fn law_labels_and_tabs(v: AppView, i: u32, t: usize)
    ensures
        next_view(v, UiEvent::MaskHovered(i)).label == "Interact index: "@ + decimal(i as nat),
        next_view(v, UiEvent::TestMaskHovered(i)).label == "Interact Index: "@ + decimal(
            i as nat,
        ),
        next_view(v, UiEvent::TabSelected(t)).tab_index == t,
        digits_value(decimal(i as nat)) == i,
{
    law_decimal_reads_back(i as nat);
}

/// A fresh application shows "Hello World!", a main mask of `0`, a list
/// holding one `0`, the Edit mode, a test mask of `0` and the first tab.
pub proof fn law_default_state()
    ensures
        default_view().label == "Hello World!"@,
        default_view().base_mask == 0,
        default_view().masks == seq![0u64],
        default_view().edit_mode == EditMode::Edit,
        default_view().test_mask == 0,
        default_view().tab_index == 0,
{
}


/// Bringing the list in line with the edit mode (what `on_mask_update` does
/// for the current main mask): Auto Collatz puts the plain trajectory of the
/// mask in the list, Auto Fast Collatz the shortened one, and Edit and Locked
/// leave the list alone; nothing else but the mask changes.
pub proof fn law_refresh_follows_mode(v: AppView, b: u64)
    ensures
        with_base(v, b).base_mask == b,
        with_base(v, b).edit_mode == v.edit_mode,
        with_base(v, b).label == v.label,
        with_base(v, b).tab_index == v.tab_index,
        with_base(v, b).test_mask == v.test_mask,
        v.edit_mode == EditMode::AutoCollatz ==> with_base(v, b).masks == orbit_seq(false, b as nat),
        v.edit_mode == EditMode::AutoFastCollatz ==> with_base(v, b).masks == orbit_seq(true, b as nat),
        (v.edit_mode == EditMode::Edit || v.edit_mode == EditMode::Locked) ==> with_base(v, b).masks
            == v.masks,
{
}

} // verus!
