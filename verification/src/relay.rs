//! Relays of the census and the role under which each is drawn.
//!
//! A relay carries free-form flags. Two of them matter here, the guard
//! marker and the exit marker, each read without regard to the case of its
//! letters. The role follows from the flags alone, never from where the relay
//! is or which country it is in.

use vstd::prelude::*;
use crate::projection::Degrees;
use crate::text::{eq_ignore_ascii_case, matches_ignoring_ascii_case, texts};

verus! {

/// Pixel radius of a guard or exit dot, in units of canvas position.
pub const NOTABLE_RADIUS: i128 = 750_000;

/// Pixel radius of a middle dot, in units of canvas position.
pub const MIDDLE_RADIUS: i128 = 450_000;

/// One relay of the census.
#[derive(Clone, Debug)]
pub struct Relay {
    /// Role flags, in any spelling of upper and lower case.
    pub flags: Vec<String>,
    /// Latitude, where the census gives one.
    pub latitude: Option<Degrees>,
    /// Longitude, where the census gives one.
    pub longitude: Option<Degrees>,
    /// Country code, where the census gives one.
    pub country: Option<String>,
}

/// The mathematical model of a [`Relay`].
pub struct RelayView {
    pub flags: Seq<Seq<char>>,
    pub latitude: Option<Degrees>,
    pub longitude: Option<Degrees>,
    pub country: Option<Seq<char>>,
}

impl View for Relay {
    type V = RelayView;

    open spec fn view(&self) -> RelayView {
        RelayView {
            flags: texts(self.flags@),
            latitude: self.latitude,
            longitude: self.longitude,
            country: match self.country {
                Some(code) => Some(code@),
                None => None,
            },
        }
    }
}

/// The models of a sequence of relays.
pub open spec fn relay_views(relays: Seq<Relay>) -> Seq<RelayView> {
    relays.map_values(|r: Relay| r@)
}

/// The role under which a relay is drawn. A relay has exactly one.
#[derive(Clone, Copy, Debug, PartialEq, Eq, Structural)]
pub enum Role {
    Guard,
    Exit,
    Middle,
}

/// The marker of a guard, in lower case.
pub open spec fn guard_marker() -> Seq<char> {
    "guard"@
}

/// The marker of an exit, in lower case.
pub open spec fn exit_marker() -> Seq<char> {
    "exit"@
}

/// Whether one of `flags` is `flag`, up to the case of ASCII letters.
pub open spec fn holds_flag(flags: Seq<Seq<char>>, flag: Seq<char>) -> bool {
    exists|i: int| 0 <= i < flags.len() && matches_ignoring_ascii_case(#[trigger] flags[i], flag)
}

/// The role that a set of flags gives: guard where the guard marker is
/// among them, whatever else is; else exit where the exit marker is; else
/// middle.
pub open spec fn role_of(flags: Seq<Seq<char>>) -> Role {
    if holds_flag(flags, guard_marker()) {
        Role::Guard
    } else if holds_flag(flags, exit_marker()) {
        Role::Exit
    } else {
        Role::Middle
    }
}

/// The fill colour of a role.
pub open spec fn role_color(role: Role) -> Seq<char> {
    match role {
        Role::Guard => "#a855f7"@,
        Role::Exit => "#ef4444"@,
        Role::Middle => "#22d3ee"@,
    }
}

/// The dot radius of a role, in units of canvas position: guards and exits
/// share the larger one.
pub open spec fn role_radius(role: Role) -> int {
    match role {
        Role::Guard => NOTABLE_RADIUS as int,
        Role::Exit => NOTABLE_RADIUS as int,
        Role::Middle => MIDDLE_RADIUS as int,
    }
}

/// The name of a role as the legend shows it.
pub open spec fn role_label(role: Role) -> Seq<char> {
    match role {
        Role::Guard => "Guard"@,
        Role::Exit => "Exit"@,
        Role::Middle => "Middle"@,
    }
}

/// How a relay is drawn.
#[derive(Clone, Copy, Debug)]
pub struct Classification {
    pub role: Role,
    /// Fill colour, as a hexadecimal colour code.
    pub color: &'static str,
    /// Dot radius in units of canvas position.
    pub radius: i128,
}

impl Role {
    /// The fill colour of the role.
    pub fn color(self) -> (c: &'static str)
        ensures
            c@ == role_color(self),
    {
        match self {
            Role::Guard => "#a855f7",
            Role::Exit => "#ef4444",
            Role::Middle => "#22d3ee",
        }
    }

    /// The dot radius of the role, in units of canvas position.
    pub fn radius(self) -> (r: i128)
        ensures
            r == role_radius(self),
    {
        match self {
            Role::Guard => NOTABLE_RADIUS,
            Role::Exit => NOTABLE_RADIUS,
            Role::Middle => MIDDLE_RADIUS,
        }
    }

    /// The name of the role as the legend shows it.
    pub fn label(self) -> (l: &'static str)
        ensures
            l@ == role_label(self),
    {
        match self {
            Role::Guard => "Guard",
            Role::Exit => "Exit",
            Role::Middle => "Middle",
        }
    }
}

/// Whether one of `flags` is `flag`, up to the case of ASCII letters.
pub fn flags_hold(flags: &Vec<String>, flag: &str) -> (found: bool)
    ensures
        found == holds_flag(texts(flags@), flag@),
{
    let mut i: usize = 0;
    while i < flags.len()
        invariant
            i <= flags.len(),
            forall|j: int|
                0 <= j < i ==> !matches_ignoring_ascii_case(#[trigger] texts(flags@)[j], flag@),
        decreases flags.len() - i,
    {
        if eq_ignore_ascii_case(flags[i].as_str(), flag) {
            assert(matches_ignoring_ascii_case(texts(flags@)[i as int], flag@));
            return true;
        }
        i += 1;
    }
    false
}

/// The role and the visual attributes that a set of flags gives. Every set
/// of flags has a classification.
pub fn classify(flags: &Vec<String>) -> (c: Classification)
    ensures
        c.role == role_of(texts(flags@)),
        c.color@ == role_color(c.role),
        c.radius == role_radius(c.role),
{
    let role = if flags_hold(flags, "guard") {
        Role::Guard
    } else if flags_hold(flags, "exit") {
        Role::Exit
    } else {
        Role::Middle
    };
    Classification { role, color: role.color(), radius: role.radius() }
}

impl Relay {
    /// Whether the relay carries `flag`, up to the case of ASCII letters.
    pub fn has_flag(&self, flag: &str) -> (found: bool)
        ensures
            found == holds_flag(self@.flags, flag@),
    {
        flags_hold(&self.flags, flag)
    }

    /// The role under which the relay is drawn.
    pub fn role(&self) -> (role: Role)
        ensures
            role == role_of(self@.flags),
    {
        classify(&self.flags).role
    }

    /// The fill colour of the relay's dot.
    pub fn dot_color(&self) -> (color: &'static str)
        ensures
            color@ == role_color(role_of(self@.flags)),
    {
        classify(&self.flags).color
    }
}

/// A relay with the guard marker is a guard, whatever else it carries: a
/// relay with both markers is a guard and nothing else.
pub proof fn lemma_guard_takes_priority(flags: Seq<Seq<char>>)
    requires
        holds_flag(flags, guard_marker()),
    ensures
        role_of(flags) == Role::Guard,
{
}

/// Whether a flag is held depends only on which flags there are, not on
/// their order or on how often one is repeated.
pub proof fn lemma_holds_flag_of_set(a: Seq<Seq<char>>, b: Seq<Seq<char>>, flag: Seq<char>)
    requires
        a.to_set() == b.to_set(),
    ensures
        holds_flag(a, flag) == holds_flag(b, flag),
{
    if holds_flag(a, flag) {
        let i = choose|i: int| 0 <= i < a.len() && matches_ignoring_ascii_case(#[trigger] a[i], flag);
        assert(a.contains(a[i]));
        assert(a.to_set().contains(a[i]));
        assert(b.to_set().contains(a[i]));
        assert(b.contains(a[i]));
        let j = choose|j: int| 0 <= j < b.len() && b[j] == a[i];
        assert(matches_ignoring_ascii_case(b[j], flag));
    }
    if holds_flag(b, flag) {
        let i = choose|i: int| 0 <= i < b.len() && matches_ignoring_ascii_case(#[trigger] b[i], flag);
        assert(b.contains(b[i]));
        assert(b.to_set().contains(b[i]));
        assert(a.to_set().contains(b[i]));
        assert(a.contains(b[i]));
        let j = choose|j: int| 0 <= j < a.len() && a[j] == b[i];
        assert(matches_ignoring_ascii_case(a[j], flag));
    }
}

/// The role is a function of the set of flags: two relays with the same
/// flags in another order, or with a flag repeated, have the same role.
pub proof fn lemma_role_of_set(a: Seq<Seq<char>>, b: Seq<Seq<char>>)
    requires
        a.to_set() == b.to_set(),
    ensures
        role_of(a) == role_of(b),
{
    lemma_holds_flag_of_set(a, b, guard_marker());
    lemma_holds_flag_of_set(a, b, exit_marker());
}

} // verus!
