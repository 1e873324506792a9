//! The toplevel windows that a COSMIC compositor reports, and which of them
//! has the focus: the state that the Wayland events update.

use std::collections::HashMap;
use vstd::prelude::*;
use crate::text::str_eq;
use vstd::std_specs::hash::{into_iter, spec_hash_map_iter};
use vstd::std_specs::iter::IteratorSpec;

verus! {

broadcast use vstd::std_specs::hash::group_hash_axioms;

/// The value of the `activated` entry in a COSMIC toplevel's state array.
pub const STATE_ACTIVATED: u32 = 2;

/// What is attached to a COSMIC toplevel handle: the id of its ext handle.
#[derive(Clone, Copy, Debug)]
pub struct CosmicHandleData {
    pub ext_id: u32,
}

/// What is known of one toplevel window.
#[derive(Clone, Debug)]
pub struct ToplevelInfo {
    pub app_id: Option<String>,
    pub title: Option<String>,
    pub activated: bool,
}

/// The toplevels by id, and the focus as last seen.
pub struct ToplevelState {
    pub toplevels: HashMap<u32, ToplevelInfo>,
    pub ext_to_cosmic: HashMap<u32, u32>,
    active_id: Option<u32>,
    focus_change: Option<(String, String)>,
}

/// The text of an optional string, the empty text for `None`.
pub open spec fn text_or_empty(o: Option<String>) -> Seq<char> {
    match o {
        Some(s) => s@,
        None => Seq::empty(),
    }
}

/// `a` is an admissible answer to "which toplevel is activated": an activated
/// one, or `None` when there is none.
pub open spec fn is_activated_choice(m: Map<u32, ToplevelInfo>, a: Option<u32>) -> bool {
    match a {
        Some(id) => m.contains_key(id) && m[id].activated,
        None => forall|k: u32| #[trigger] m.contains_key(k) ==> !m[k].activated,
    }
}

/// The first activated toplevel in a walk over the toplevels, if any.
pub open spec fn first_activated(walk: Seq<(u32, ToplevelInfo)>) -> Option<u32>
    decreases walk.len(),
{
    if walk.len() == 0 {
        None
    } else if walk[0].1.activated {
        Some(walk[0].0)
    } else {
        first_activated(walk.drop_first())
    }
}

proof fn lemma_first_activated(walk: Seq<(u32, ToplevelInfo)>, i: int)
    requires
        0 <= i <= walk.len(),
        forall|j: int| 0 <= j < i ==> !(#[trigger] walk[j]).1.activated,
        i < walk.len() ==> walk[i].1.activated,
    ensures
        first_activated(walk) == if i < walk.len() {
            Some(walk[i].0)
        } else {
            None::<u32>
        },
    decreases i,
{
    if i > 0 {
        let t = walk.drop_first();
        assert forall|j: int| 0 <= j < i - 1 implies !(#[trigger] t[j]).1.activated by {
            assert(t[j] == walk[j + 1]);
        }
        if i < walk.len() {
            assert(t[i - 1] == walk[i]);
        }
        lemma_first_activated(t, i - 1);
    }
}

/// The pending focus change after the focus moves to `a`: the class and title
/// of `a` where `a` is a known toplevel with a non-empty app id, else `pending`.
pub open spec fn focus_after(
    m: Map<u32, ToplevelInfo>,
    pending: Option<(Seq<char>, Seq<char>)>,
    a: Option<u32>,
) -> Option<(Seq<char>, Seq<char>)> {
    match a {
        Some(id) => if m.contains_key(id) && text_or_empty(m[id].app_id).len() > 0 {
            Some((text_or_empty(m[id].app_id), text_or_empty(m[id].title)))
        } else {
            pending
        },
        None => pending,
    }
}

/// The events of the toplevel protocols that change what is known of the
/// toplevels. Ids are those of the ext handles; a COSMIC handle's events carry
/// the ext id it was created for.
pub enum ToplevelEvent {
    /// The ext list announces a new toplevel.
    NewToplevel { id: u32 },
    /// An ext or COSMIC handle reports a title.
    Title { id: u32, title: String },
    /// An ext or COSMIC handle reports an app id.
    AppId { id: u32, app_id: String },
    /// A COSMIC handle reports its state array.
    CosmicState { id: u32, states: Vec<u8> },
    /// An ext handle, a COSMIC handle, or the COSMIC info object is done with a batch.
    Done,
    /// An ext handle is closed.
    Closed { id: u32 },
    /// A COSMIC handle is closed.
    CosmicClosed { id: u32 },
}

/// Toplevels `m` with the title of `id` set, where `id` is known.
pub open spec fn with_title(m: Map<u32, ToplevelInfo>, id: u32, title: String) -> Map<u32, ToplevelInfo> {
    if m.contains_key(id) {
        m.insert(id, ToplevelInfo { title: Some(title), ..m[id] })
    } else {
        m
    }
}

/// Toplevels `m` with the app id of `id` set, where `id` is known.
pub open spec fn with_app_id(m: Map<u32, ToplevelInfo>, id: u32, app_id: String) -> Map<u32, ToplevelInfo> {
    if m.contains_key(id) {
        m.insert(id, ToplevelInfo { app_id: Some(app_id), ..m[id] })
    } else {
        m
    }
}

/// Toplevels `m` with the activation of `id` set, where `id` is known.
pub open spec fn with_activated(m: Map<u32, ToplevelInfo>, id: u32, activated: bool) -> Map<u32, ToplevelInfo> {
    if m.contains_key(id) {
        m.insert(id, ToplevelInfo { activated, ..m[id] })
    } else {
        m
    }
}

/// Toplevels `m` with `id` known, as it was or else with nothing known of it.
pub open spec fn with_toplevel(m: Map<u32, ToplevelInfo>, id: u32) -> Map<u32, ToplevelInfo> {
    if m.contains_key(id) {
        m
    } else {
        m.insert(id, ToplevelInfo { app_id: None, title: None, activated: false })
    }
}

/// The focus and pending change after the focus is set to `a` in toplevels `m`:
/// unchanged where `a` is the focus already, else `a` with `focus_after`.
pub open spec fn focus_step(
    m: Map<u32, ToplevelInfo>,
    active: Option<u32>,
    pending: Option<(Seq<char>, Seq<char>)>,
    a: Option<u32>,
) -> (Option<u32>, Option<(Seq<char>, Seq<char>)>) {
    if a == active {
        (active, pending)
    } else {
        (a, focus_after(m, pending, a))
    }
}

impl ToplevelState {
    /// The known toplevels by id.
    pub closed spec fn windows(&self) -> Map<u32, ToplevelInfo> {
        self.toplevels@
    }

    /// The toplevel that a check of the focus picks: the first activated one in
    /// the walk over the toplevel map. The order of that walk is a function of
    /// the map as it stands, so an unchanged map gives the same pick.
    pub closed spec fn activated_choice(&self) -> Option<u32> {
        first_activated(into_iter(spec_hash_map_iter(&self.toplevels)))
    }

    /// The COSMIC handle id of each ext handle id.
    pub closed spec fn cosmic_ids(&self) -> Map<u32, u32> {
        self.ext_to_cosmic@
    }

    /// The toplevel that had the focus when it was last checked.
    pub closed spec fn active(&self) -> Option<u32> {
        self.active_id
    }

    /// The focus change not yet taken: class and title.
    pub closed spec fn pending(&self) -> Option<(Seq<char>, Seq<char>)> {
        match self.focus_change {
            Some(p) => Some((p.0@, p.1@)),
            None => None,
        }
    }

    /// `new` is `old` after the focus was set to `a`: the maps are unchanged; if
    /// `a` is the focus already nothing changes, else `a` becomes the focus and
    /// the pending change follows `focus_after`.
    pub open spec fn focus_applied(old: ToplevelState, new: ToplevelState, a: Option<u32>) -> bool {
        &&& new.windows() == old.windows()
        &&& new.cosmic_ids() == old.cosmic_ids()
        &&& new.activated_choice() == old.activated_choice()
        &&& (new.active(), new.pending()) == focus_step(old.windows(), old.active(), old.pending(), a)
    }

    /// No toplevels, no focus, nothing pending.
    pub fn new() -> (r: Self)
        ensures
            r.windows() == Map::<u32, ToplevelInfo>::empty(),
            r.cosmic_ids() == Map::<u32, u32>::empty(),
            r.active() is None,
            r.pending() is None,
    {
        Self {
            toplevels: HashMap::new(),
            ext_to_cosmic: HashMap::new(),
            active_id: None,
            focus_change: None,
        }
    }

    /// Hands out the pending focus change and clears it.
    pub fn take_focus_change(&mut self) -> (r: Option<(String, String)>)
        ensures
            match r {
                Some(p) => old(self).pending() == Some((p.0@, p.1@)),
                None => old(self).pending() is None,
            },
            final(self).pending() is None,
            final(self).active() == old(self).active(),
            final(self).windows() == old(self).windows(),
            final(self).cosmic_ids() == old(self).cosmic_ids(),
    {
        self.focus_change.take()
    }

    /// An activated toplevel, if there is one. Which one, where several are
    /// activated, depends on the order in which the map is walked.
    pub fn find_activated(&self) -> (r: Option<u32>)
        ensures
            r == self.activated_choice(),
            is_activated_choice(self.windows(), r),
    {
        let ghost walk = spec_hash_map_iter(&self.toplevels).remaining();
        for (id, info) in it: self.toplevels.iter()
            invariant
                it.seq() == walk,
                into_iter(spec_hash_map_iter(&self.toplevels)) == walk.unref(),
                forall|j: int| 0 <= j < it.index() ==> !(#[trigger] walk[j]).1.activated,
            ensures
                forall|j: int| 0 <= j < walk.len() ==> !(#[trigger] walk[j]).1.activated,
        {
            if info.activated {
                proof {
                    let u = walk.unref();
                    assert(into_iter(spec_hash_map_iter(&self.toplevels)) == u);
                    assert(u[it.index() as int] == (*id, *info));
                    assert forall|j: int| 0 <= j < it.index() implies !(#[trigger] u[j]).1.activated by {
                        assert(u[j].1 == *walk[j].1);
                    }
                    lemma_first_activated(u, it.index() as int);
                }
                return Some(*id);
            }
        }
        proof {
            lemma_first_activated(walk.unref(), walk.len() as int);
        }
        None
    }

    /// Moves the focus to `new_active`. Where that is a change, it is recorded,
    /// and a toplevel with a non-empty app id becomes the pending focus change.
    pub fn apply_focus(&mut self, new_active: Option<u32>)
        ensures
            Self::focus_applied(*old(self), *final(self), new_active),
    {
        let same = match (new_active, self.active_id) {
            (Some(a), Some(b)) => a == b,
            (None, None) => true,
            _ => false,
        };
        if !same {
            self.active_id = new_active;
            if let Some(id) = new_active {
                if let Some(info) = self.toplevels.get(&id) {
                    let class = match &info.app_id {
                        Some(a) => a.clone(),
                        None => String::new(),
                    };
                    let title = match &info.title {
                        Some(t) => t.clone(),
                        None => String::new(),
                    };
                    if !class.as_str().is_empty() {
                        self.focus_change = Some((class, title));
                    }
                }
            }
        }
    }

    /// Looks for the activated toplevel and moves the focus to it.
    pub fn check_focus(&mut self)
        ensures
            Self::focus_applied(*old(self), *final(self), old(self).activated_choice()),
            is_activated_choice(old(self).windows(), old(self).activated_choice()),
    {
        let new_active = self.find_activated();
        self.apply_focus(new_active);
    }

    /// The info of toplevel `id`, created empty where `id` is new.
    pub fn upsert_toplevel(&mut self, id: u32) -> (r: &mut ToplevelInfo)
        ensures
            *r == (match old(self).windows().get(id) {
                Some(info) => info,
                None => ToplevelInfo { app_id: None, title: None, activated: false },
            }),
            final(self).windows() == old(self).windows().insert(id, *final(r)),
            final(self).cosmic_ids() == old(self).cosmic_ids(),
            final(self).active() == old(self).active(),
            final(self).pending() == old(self).pending(),
    {
        self.toplevels.entry(id).or_insert(ToplevelInfo { app_id: None, title: None, activated: false })
    }

    /// Sets the title of toplevel `id`, where it is known.
    pub fn set_title(&mut self, id: u32, title: String)
        ensures
            final(self).windows() == with_title(old(self).windows(), id, title),
            final(self).cosmic_ids() == old(self).cosmic_ids(),
            final(self).active() == old(self).active(),
            final(self).pending() == old(self).pending(),
    {
        if let Some(mut info) = self.toplevels.remove(&id) {
            info.title = Some(title);
            self.toplevels.insert(id, info);
        }
    }

    /// Sets the app id of toplevel `id`, where it is known.
    pub fn set_app_id(&mut self, id: u32, app_id: String)
        ensures
            final(self).windows() == with_app_id(old(self).windows(), id, app_id),
            final(self).cosmic_ids() == old(self).cosmic_ids(),
            final(self).active() == old(self).active(),
            final(self).pending() == old(self).pending(),
    {
        if let Some(mut info) = self.toplevels.remove(&id) {
            info.app_id = Some(app_id);
            self.toplevels.insert(id, info);
        }
    }

    /// Records whether toplevel `id` is activated, where it is known.
    pub fn set_activated(&mut self, id: u32, activated: bool)
        ensures
            final(self).windows() == with_activated(old(self).windows(), id, activated),
            final(self).cosmic_ids() == old(self).cosmic_ids(),
            final(self).active() == old(self).active(),
            final(self).pending() == old(self).pending(),
    {
        if let Some(mut info) = self.toplevels.remove(&id) {
            info.activated = activated;
            self.toplevels.insert(id, info);
        }
    }

    /// Records that ext handle `ext_id` has COSMIC handle `cosmic_id`.
    pub fn map_cosmic(&mut self, ext_id: u32, cosmic_id: u32)
        ensures
            final(self).cosmic_ids() == old(self).cosmic_ids().insert(ext_id, cosmic_id),
            final(self).windows() == old(self).windows(),
            final(self).active() == old(self).active(),
            final(self).pending() == old(self).pending(),
    {
        self.ext_to_cosmic.insert(ext_id, cosmic_id);
    }

    /// Forgets toplevel `id`, whose ext handle was closed, and checks the focus.
    pub fn close_toplevel(&mut self, id: u32)
        ensures
            final(self).windows() == old(self).windows().remove(id),
            final(self).cosmic_ids() == old(self).cosmic_ids(),
            is_activated_choice(final(self).windows(), final(self).activated_choice()),
            (final(self).active(), final(self).pending()) == focus_step(
                final(self).windows(),
                old(self).active(),
                old(self).pending(),
                final(self).activated_choice(),
            ),
    {
        self.toplevels.remove(&id);
        self.check_focus();
    }

    /// Forgets toplevel `ext_id` and its COSMIC handle, whose COSMIC handle was
    /// closed, and checks the focus.
    pub fn close_cosmic(&mut self, ext_id: u32)
        ensures
            final(self).windows() == old(self).windows().remove(ext_id),
            final(self).cosmic_ids() == old(self).cosmic_ids().remove(ext_id),
            is_activated_choice(final(self).windows(), final(self).activated_choice()),
            (final(self).active(), final(self).pending()) == focus_step(
                final(self).windows(),
                old(self).active(),
                old(self).pending(),
                final(self).activated_choice(),
            ),
    {
        self.toplevels.remove(&ext_id);
        self.ext_to_cosmic.remove(&ext_id);
        self.check_focus();
    }
    /// Applies one protocol event. Answers whether a COSMIC handle is to be
    /// requested for the new toplevel (for a new toplevel while the COSMIC info
    /// protocol is bound); the caller makes the request and reports the handle
    /// with `map_cosmic`. State arrays are read in the byte order `little_endian`.
    pub fn handle_event(&mut self, event: ToplevelEvent, cosmic_bound: bool, little_endian: bool) -> (request_cosmic: bool)
        ensures
            request_cosmic == (event is NewToplevel && cosmic_bound),
            match event {
                ToplevelEvent::NewToplevel { id } => {
                    &&& final(self).windows() == with_toplevel(old(self).windows(), id)
                    &&& final(self).cosmic_ids() == old(self).cosmic_ids()
                    &&& final(self).active() == old(self).active()
                    &&& final(self).pending() == old(self).pending()
                },
                ToplevelEvent::Title { id, title } => {
                    &&& final(self).windows() == with_title(old(self).windows(), id, title)
                    &&& final(self).cosmic_ids() == old(self).cosmic_ids()
                    &&& final(self).active() == old(self).active()
                    &&& final(self).pending() == old(self).pending()
                },
                ToplevelEvent::AppId { id, app_id } => {
                    &&& final(self).windows() == with_app_id(old(self).windows(), id, app_id)
                    &&& final(self).cosmic_ids() == old(self).cosmic_ids()
                    &&& final(self).active() == old(self).active()
                    &&& final(self).pending() == old(self).pending()
                },
                ToplevelEvent::CosmicState { id, states } => {
                    &&& final(self).windows() == with_activated(
                        old(self).windows(),
                        id,
                        states_activated_spec(states@, little_endian),
                    )
                    &&& final(self).cosmic_ids() == old(self).cosmic_ids()
                    &&& final(self).active() == old(self).active()
                    &&& final(self).pending() == old(self).pending()
                },
                ToplevelEvent::Done => Self::focus_applied(
                    *old(self),
                    *final(self),
                    old(self).activated_choice(),
                ),
                ToplevelEvent::Closed { id } => {
                    &&& final(self).windows() == old(self).windows().remove(id)
                    &&& final(self).cosmic_ids() == old(self).cosmic_ids()
                    &&& (final(self).active(), final(self).pending()) == focus_step(
                        final(self).windows(),
                        old(self).active(),
                        old(self).pending(),
                        final(self).activated_choice(),
                    )
                },
                ToplevelEvent::CosmicClosed { id } => {
                    &&& final(self).windows() == old(self).windows().remove(id)
                    &&& final(self).cosmic_ids() == old(self).cosmic_ids().remove(id)
                    &&& (final(self).active(), final(self).pending()) == focus_step(
                        final(self).windows(),
                        old(self).active(),
                        old(self).pending(),
                        final(self).activated_choice(),
                    )
                },
            },
    {
        match event {
            ToplevelEvent::NewToplevel { id } => {
                self.upsert_toplevel(id);
                cosmic_bound
            },
            ToplevelEvent::Title { id, title } => {
                self.set_title(id, title);
                false
            },
            ToplevelEvent::AppId { id, app_id } => {
                self.set_app_id(id, app_id);
                false
            },
            ToplevelEvent::CosmicState { id, states } => {
                let activated = states_activated(states.as_slice(), little_endian);
                self.set_activated(id, activated);
                false
            },
            ToplevelEvent::Done => {
                self.check_focus();
                false
            },
            ToplevelEvent::Closed { id } => {
                self.close_toplevel(id);
                false
            },
            ToplevelEvent::CosmicClosed { id } => {
                self.close_cosmic(id);
                false
            },
        }
    }

}

/// The value of the `i`-th four-byte entry of a state array, read in little-
/// or big-endian byte order.
pub open spec fn state_entry(states: Seq<u8>, i: int, little_endian: bool) -> int {
    let b0 = states[4 * i] as int;
    let b1 = states[4 * i + 1] as int;
    let b2 = states[4 * i + 2] as int;
    let b3 = states[4 * i + 3] as int;
    if little_endian {
        b0 + 256 * b1 + 65536 * b2 + 16777216 * b3
    } else {
        b3 + 256 * b2 + 65536 * b1 + 16777216 * b0
    }
}

/// A state array (whole four-byte entries; a trailing partial entry is ignored)
/// holds the `activated` state.
pub open spec fn states_activated_spec(states: Seq<u8>, little_endian: bool) -> bool {
    exists|i: int|
        0 <= i < states.len() / 4 && #[trigger] state_entry(states, i, little_endian)
            == STATE_ACTIVATED
}

/// Whether a COSMIC state array, whose entries are `u32` in the byte order
/// given by `little_endian`, holds the `activated` state.
pub fn states_activated(states: &[u8], little_endian: bool) -> (r: bool)
    ensures
        r == states_activated_spec(states@, little_endian),
{
    let len = states.len();
    let n = len / 4;
    let mut i: usize = 0;
    while i < n
        invariant
            i <= n,
            len == states@.len(),
            n == len / 4,
            forall|j: int| 0 <= j < i ==> #[trigger] state_entry(states@, j, little_endian) != STATE_ACTIVATED,
        decreases n - i,
    {
        assert(4 * i + 3 < states@.len()) by (nonlinear_arith)
            requires
                i < n,
                n == len / 4,
                len == states@.len(),
        ;
        let b0 = states[4 * i] as u32;
        let b1 = states[4 * i + 1] as u32;
        let b2 = states[4 * i + 2] as u32;
        let b3 = states[4 * i + 3] as u32;
        let v: u32 = if little_endian {
            b0 + 256 * b1 + 65536 * b2 + 16777216 * b3
        } else {
            b3 + 256 * b2 + 65536 * b1 + 16777216 * b0
        };
        assert(v == state_entry(states@, i as int, little_endian));
        if v == STATE_ACTIVATED {
            return true;
        }
        i = i + 1;
    }
    false
}

/// The toplevel protocols that the registry may announce.
#[derive(Clone, Copy, Debug, PartialEq, Eq)]
pub enum ToplevelProtocol {
    /// `ext_foreign_toplevel_list_v1`
    ExtForeignToplevelList,
    /// `zcosmic_toplevel_info_v1`
    CosmicToplevelInfo,
}

/// Which protocol to bind, and at which version, for a global that the registry
/// announces: `ext_foreign_toplevel_list_v1` up to version 1,
/// `zcosmic_toplevel_info_v1` up to version 2, nothing for any other interface.
pub fn registry_binding(interface: &str, version: u32) -> (r: Option<(ToplevelProtocol, u32)>)
    ensures
        r == if interface@ == "ext_foreign_toplevel_list_v1"@ {
            Some((ToplevelProtocol::ExtForeignToplevelList, if version < 1 { version } else { 1 }))
        } else if interface@ == "zcosmic_toplevel_info_v1"@ {
            Some((ToplevelProtocol::CosmicToplevelInfo, if version < 2 { version } else { 2 }))
        } else {
            None
        },
{
    if str_eq(interface, "ext_foreign_toplevel_list_v1") {
        Some((ToplevelProtocol::ExtForeignToplevelList, if version < 1 { version } else { 1 }))
    } else if str_eq(interface, "zcosmic_toplevel_info_v1") {
        Some((ToplevelProtocol::CosmicToplevelInfo, if version < 2 { version } else { 2 }))
    } else {
        None
    }
}

/// Setting the focus to the same toplevel twice changes nothing the second time:
/// a focus change is recorded once, however often the focus is checked.
pub proof fn lemma_focus_idempotent(s0: ToplevelState, s1: ToplevelState, s2: ToplevelState, a: Option<u32>)
    requires
        ToplevelState::focus_applied(s0, s1, a),
        ToplevelState::focus_applied(s1, s2, a),
    ensures
        s2.windows() == s1.windows(),
        s2.cosmic_ids() == s1.cosmic_ids(),
        s2.active() == s1.active(),
        s2.pending() == s1.pending(),
        s1.active() == a,
{
}

/// Checking the focus twice with nothing changed in between changes nothing the
/// second time: the same toplevel is picked and no new focus change is recorded.
pub proof fn lemma_check_focus_twice(s0: ToplevelState, s1: ToplevelState, s2: ToplevelState)
    requires
        ToplevelState::focus_applied(s0, s1, s0.activated_choice()),
        ToplevelState::focus_applied(s1, s2, s1.activated_choice()),
    ensures
        s2.windows() == s1.windows(),
        s2.cosmic_ids() == s1.cosmic_ids(),
        s2.active() == s1.active(),
        s2.pending() == s1.pending(),
{
    lemma_focus_idempotent(s0, s1, s2, s0.activated_choice());
}

/// A new pending focus change only comes with a move of the focus, and it names
/// the class (never empty) and title of the toplevel that now has the focus.
pub proof fn lemma_focus_change_names_focus(s0: ToplevelState, s1: ToplevelState, a: Option<u32>)
    requires
        ToplevelState::focus_applied(s0, s1, a),
        s1.pending() != s0.pending(),
    ensures
        a != s0.active(),
        s1.active() == a,
        a matches Some(id) && s0.windows().contains_key(id) && s1.pending() == Some(
            (text_or_empty(s0.windows()[id].app_id), text_or_empty(s0.windows()[id].title)),
        ) && text_or_empty(s0.windows()[id].app_id).len() > 0,
{
}

/// A state array holds the `activated` state whenever any one of its whole
/// entries, at any position, is 2 in the array's byte order.
pub proof fn lemma_activated_at_any_entry(states: Seq<u8>, i: int, little_endian: bool)
    requires
        0 <= i,
        4 * i + 3 < states.len(),
        little_endian ==> states[4 * i] == 2 && states[4 * i + 1] == 0 && states[4 * i + 2] == 0
            && states[4 * i + 3] == 0,
        !little_endian ==> states[4 * i] == 0 && states[4 * i + 1] == 0 && states[4 * i + 2] == 0
            && states[4 * i + 3] == 2,
    ensures
        states_activated_spec(states, little_endian),
{
    assert(i < states.len() / 4) by (nonlinear_arith)
        requires
            0 <= i,
            4 * i + 3 < states.len(),
    ;
    assert(state_entry(states, i, little_endian) == STATE_ACTIVATED);
}

/// A state array that holds the `activated` state has a whole entry that is 2
/// in the array's byte order.
pub proof fn lemma_activated_has_entry(states: Seq<u8>, little_endian: bool)
    requires
        states_activated_spec(states, little_endian),
    ensures
        exists|i: int|
            0 <= i && 4 * i + 3 < states.len() && #[trigger] states[4 * i] == (if little_endian {
                2u8
            } else {
                0u8
            }) && states[4 * i + 1] == 0 && states[4 * i + 2] == 0 && states[4 * i + 3] == (
            if little_endian {
                0u8
            } else {
                2u8
            }),
{
    let i = choose|i: int|
        0 <= i < states.len() / 4 && #[trigger] state_entry(states, i, little_endian)
            == STATE_ACTIVATED;
    assert(4 * i + 3 < states.len()) by (nonlinear_arith)
        requires
            0 <= i < states.len() / 4,
    ;
    let b0 = states[4 * i];
    let b1 = states[4 * i + 1];
    let b2 = states[4 * i + 2];
    let b3 = states[4 * i + 3];
    assert(state_entry(states, i, little_endian) == 2);
}

/// The entries of two state arrays put one after the other: the whole array
/// holds the `activated` state exactly when one of the two does.
pub proof fn lemma_activated_concat(a: Seq<u8>, b: Seq<u8>, little_endian: bool)
    requires
        a.len() % 4 == 0,
    ensures
        states_activated_spec(a + b, little_endian) == (states_activated_spec(a, little_endian)
            || states_activated_spec(b, little_endian)),
{
    let na = a.len() / 4;
    let ab = a + b;
    assert(a.len() == 4 * na);
    assert(ab.len() / 4 == na + b.len() / 4);
    assert forall|i: int| 0 <= i < na implies #[trigger] state_entry(ab, i, little_endian)
        == state_entry(a, i, little_endian) by {
        assert(4 * i + 3 < a.len());
        assert(ab[4 * i] == a[4 * i]);
        assert(ab[4 * i + 1] == a[4 * i + 1]);
        assert(ab[4 * i + 2] == a[4 * i + 2]);
        assert(ab[4 * i + 3] == a[4 * i + 3]);
    }
    assert forall|i: int| 0 <= i < b.len() / 4 implies #[trigger] state_entry(ab, na + i, little_endian)
        == state_entry(b, i, little_endian) by {
        assert(4 * i + 3 < b.len()) by (nonlinear_arith)
            requires
                0 <= i < b.len() / 4,
        ;
        assert(4 * (na + i) == a.len() + 4 * i);
        assert(ab[4 * (na + i)] == b[4 * i]);
        assert(ab[4 * (na + i) + 1] == b[4 * i + 1]);
        assert(ab[4 * (na + i) + 2] == b[4 * i + 2]);
        assert(ab[4 * (na + i) + 3] == b[4 * i + 3]);
    }
    if states_activated_spec(ab, little_endian) {
        let i = choose|i: int|
            0 <= i < ab.len() / 4 && #[trigger] state_entry(ab, i, little_endian) == STATE_ACTIVATED;
        if i < na {
            assert(state_entry(a, i, little_endian) == STATE_ACTIVATED);
        } else {
            assert(state_entry(ab, na + (i - na), little_endian) == STATE_ACTIVATED);
            assert(state_entry(b, i - na, little_endian) == STATE_ACTIVATED);
        }
    }
    if states_activated_spec(a, little_endian) {
        let i = choose|i: int|
            0 <= i < a.len() / 4 && #[trigger] state_entry(a, i, little_endian) == STATE_ACTIVATED;
        assert(state_entry(ab, i, little_endian) == STATE_ACTIVATED);
    }
    if states_activated_spec(b, little_endian) {
        let i = choose|i: int|
            0 <= i < b.len() / 4 && #[trigger] state_entry(b, i, little_endian) == STATE_ACTIVATED;
        assert(state_entry(ab, na + i, little_endian) == STATE_ACTIVATED);
    }
}

} // verus!
