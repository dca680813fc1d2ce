use vstd::prelude::*;

verus! {

/// How far an animation has come.
#[derive(Copy, Clone, Debug, Eq, PartialEq, Structural)]
pub enum AnimationStatus {
    NotRunning,
    Enlisting,
    Running,
    Repeating,
    Retiring,
}

/// The easing curves offered by name.
#[derive(Copy, Clone, Debug, Eq, PartialEq, Structural)]
pub enum SimpleCurve {
    Linear,
    EaseIn,
    EaseOut,
    EaseInOut,
    OutElastic,
    OutBounce,
    OutSine,
}

/// The direction in which an animation runs through its repetitions.
#[derive(Debug, Copy, Clone, PartialOrd, PartialEq, Eq, Structural)]
pub enum AnimationDirection {
    Normal,
    Reverse,
    Alternate,
    AlternateReverse,
}

impl Default for AnimationDirection {
    fn default() -> (r: Self)
        ensures
            r == AnimationDirection::Normal,
    {
        AnimationDirection::Normal
    }
}

impl AnimationDirection {
    /// Whether the repetition runs from start to end (rather than from end to
    /// start): normal always, reverse never, alternate on even repetitions,
    /// alternate-reverse on odd ones.
    pub open spec fn forward_spec(self, even_repeat: bool) -> bool {
        match self {
            AnimationDirection::Normal => true,
            AnimationDirection::Reverse => false,
            AnimationDirection::Alternate => even_repeat,
            AnimationDirection::AlternateReverse => !even_repeat,
        }
    }

    pub fn runs_forward(&self, even_repeat: bool) -> (r: bool)
        ensures
            r == self.forward_spec(even_repeat),
    {
        match self {
            AnimationDirection::Normal => true,
            AnimationDirection::Reverse => false,
            AnimationDirection::Alternate => even_repeat,
            AnimationDirection::AlternateReverse => !even_repeat,
        }
    }
}

/// The phases an animation passes through, its times aside.
#[derive(Copy, Clone, Debug, Eq, PartialEq, Structural)]
pub enum AnimationPhase {
    /// Waits for an event, then a delay.
    PendingEvent,
    /// Waits for its start time.
    Waiting,
    /// Has just started.
    Enlisting,
    Running,
    /// Has started another repetition.
    Repeating,
    /// Has ended, and is seen once more so that its end state is set.
    Retiring,
}

impl AnimationPhase {
    /// Phases in which interpolations run.
    pub open spec fn active_spec(self) -> bool {
        match self {
            AnimationPhase::Enlisting | AnimationPhase::Running | AnimationPhase::Retiring => true,
            _ => false,
        }
    }

    pub fn is_active(&self) -> (r: bool)
        ensures
            r == self.active_spec(),
    {
        match self {
            AnimationPhase::Enlisting | AnimationPhase::Running | AnimationPhase::Retiring => true,
            _ => false,
        }
    }

    /// The status shown outside: an animation that has not started is not
    /// running.
    pub open spec fn status_spec(self) -> AnimationStatus {
        match self {
            AnimationPhase::PendingEvent | AnimationPhase::Waiting => AnimationStatus::NotRunning,
            AnimationPhase::Enlisting => AnimationStatus::Enlisting,
            AnimationPhase::Repeating => AnimationStatus::Repeating,
            AnimationPhase::Running => AnimationStatus::Running,
            AnimationPhase::Retiring => AnimationStatus::Retiring,
        }
    }

    pub fn status(&self) -> (r: AnimationStatus)
        ensures
            r == self.status_spec(),
    {
        match self {
            AnimationPhase::PendingEvent | AnimationPhase::Waiting => AnimationStatus::NotRunning,
            AnimationPhase::Enlisting => AnimationStatus::Enlisting,
            AnimationPhase::Repeating => AnimationStatus::Repeating,
            AnimationPhase::Running => AnimationStatus::Running,
            AnimationPhase::Retiring => AnimationStatus::Retiring,
        }
    }

    /// One step of time: the next phase, whether the position within the
    /// repetition is to be computed, and whether the animation is done.
    /// `started` says whether the start time has passed.
    pub open spec fn advance_spec(self, started: bool) -> (AnimationPhase, bool, bool) {
        match self {
            AnimationPhase::Waiting => if started {
                (AnimationPhase::Enlisting, true, false)
            } else {
                (AnimationPhase::Waiting, false, false)
            },
            AnimationPhase::Enlisting | AnimationPhase::Repeating => (AnimationPhase::Running, true, false),
            AnimationPhase::Running => (AnimationPhase::Running, true, false),
            AnimationPhase::Retiring => (AnimationPhase::Retiring, false, true),
            AnimationPhase::PendingEvent => (AnimationPhase::PendingEvent, false, false),
        }
    }

    pub fn advance(&self, started: bool) -> (r: (AnimationPhase, bool, bool))
        ensures
            r == self.advance_spec(started),
    {
        match self {
            AnimationPhase::Waiting => if started {
                (AnimationPhase::Enlisting, true, false)
            } else {
                (AnimationPhase::Waiting, false, false)
            },
            AnimationPhase::Enlisting | AnimationPhase::Repeating => (AnimationPhase::Running, true, false),
            AnimationPhase::Running => (AnimationPhase::Running, true, false),
            AnimationPhase::Retiring => (AnimationPhase::Retiring, false, true),
            AnimationPhase::PendingEvent => (AnimationPhase::PendingEvent, false, false),
        }
    }
}

/// On each step of time an active animation (enlisting, repeating, running,
/// or waiting once its start has passed) computes its position within the
/// repetition and goes on running; a waiting one starts exactly when its
/// start has passed; only a retiring one reports that it is done.
pub proof fn law_active_phases_compute_each_step(phase: AnimationPhase, started: bool)
    ensures
        phase.advance_spec(started).1 <==> (phase is Enlisting || phase is Repeating || phase is Running || (
        phase is Waiting && started)),
        (phase is Enlisting || phase is Repeating || phase is Running) ==> phase.advance_spec(started).0 is Running,
        phase is Waiting ==> (phase.advance_spec(started).0 is Enlisting <==> started),
        phase is Waiting && !started ==> phase.advance_spec(started).0 is Waiting,
        phase.advance_spec(started).2 <==> phase is Retiring,
        (phase is Retiring || phase is PendingEvent) ==> phase.advance_spec(started).0 == phase,
{
}

/// Whether another repetition may start after `count` repetitions have
/// ended: always without a limit, otherwise while fewer than the limit have.
pub open spec fn may_repeat(count: nat, limit: Option<usize>) -> bool {
    match limit {
        None => true,
        Some(l) => count < l,
    }
}

/// At the end of a repetition: the repetitions ended so far, and whether
/// another may start.
pub fn end_of_repetition(repeat_count: usize, repeat_limit: Option<usize>) -> (r: (usize, bool))
    requires
        repeat_count < usize::MAX,
    ensures
        r.0 == repeat_count + 1,
        r.1 == may_repeat(r.0 as nat, repeat_limit),
{
    let count = repeat_count + 1;
    let allow = match repeat_limit {
        None => true,
        Some(limit) => count < limit,
    };
    (count, allow)
}

/// An animation limited to `limit` repetitions retires at the end of the
/// `limit`-th one, and not before; one without a limit never does.
pub proof fn law_repeats_up_to_limit(limit: Option<usize>, ended: nat)
    requires
        ended >= 1,
    ensures
        limit matches Some(l) ==> (may_repeat(ended, limit) <==> ended < l),
        limit matches Some(l) ==> (l >= 1 ==> !may_repeat(l as nat, limit)),
        limit is None ==> may_repeat(ended, limit),
{
}

/// Names an animation in an `AnimationStorage`: its slot and the version of
/// the slot when the animation was put there. Versions start at one.
#[derive(Debug, Copy, Clone, Eq, PartialEq, Structural, Hash)]
pub struct AnimationId {
    offset: u32,
    version: u32,
}

impl AnimationId {
    /// The slot and the version.
    pub closed spec fn key(self) -> (u32, u32) {
        (self.offset, self.version)
    }

    pub fn new(offset: u32, version: u32) -> (r: Self)
        requires
            version != 0,
        ensures
            r.key() == (offset, version),
    {
        AnimationId { offset, version }
    }
}

/// Something that can start animations.
#[derive(Eq, PartialEq, Hash, Debug)]
pub enum AnimationEvent {
    Named(&'static str),
    Ended(AnimationId),
}

enum ASEntry<Value> {
    Busy(u32, Value),
    /// A free slot and the next free slot.
    Free(u32, u32),
    LastFree(u32),
}

/// Values kept in slots that are reused; a slot's version grows on each reuse,
/// so that an id of a value that has gone does not find its successor.
pub struct AnimationStorage<Value> {
    contents: Vec<ASEntry<Value>>,
    size: u32,
    first_free: Option<u32>,
    free_list: Ghost<Seq<u32>>,
}

spec fn is_busy<Value>(e: ASEntry<Value>) -> bool {
    e is Busy
}

spec fn busy_version<Value>(e: ASEntry<Value>) -> u32 {
    match e {
        ASEntry::Busy(v, _) => v,
        ASEntry::Free(v, _) => v,
        ASEntry::LastFree(v) => v,
    }
}

spec fn busy_value<Value>(e: ASEntry<Value>) -> Value {
    match e {
        ASEntry::Busy(_, x) => x,
        _ => arbitrary(),
    }
}

/// The values of the busy entries among `entries[..n]`, in slot order.
spec fn busy_values<Value>(entries: Seq<ASEntry<Value>>, n: nat) -> Seq<Value>
    decreases n,
{
    if n == 0 || n > entries.len() {
        Seq::empty()
    } else {
        let prev = busy_values(entries, (n - 1) as nat);
        match entries[n - 1] {
            ASEntry::Busy(_, x) => prev.push(x),
            _ => prev,
        }
    }
}

/// The keys of the busy entries among `entries[..n]`, in slot order.
spec fn busy_keys<Value>(entries: Seq<ASEntry<Value>>, n: nat) -> Seq<(u32, u32)>
    decreases n,
{
    if n == 0 || n > entries.len() {
        Seq::empty()
    } else {
        let prev = busy_keys(entries, (n - 1) as nat);
        match entries[n - 1] {
            ASEntry::Busy(v, _) => prev.push(((n - 1) as u32, v)),
            _ => prev,
        }
    }
}

/// The version a slot gets when it is reused: one more, or one after the
/// largest.
pub open spec fn bumped_version(v: u32) -> u32 {
    if v == u32::MAX {
        1
    } else {
        (v + 1) as u32
    }
}

/// `f` may be called with the id of the key `k` and a reference to `before`
/// and answer `answer`.
pub open spec fn visit_answer<Value, F: FnMut(AnimationId, &mut Value) -> bool>(
    f: F,
    k: (u32, u32),
    before: Value,
    answer: bool,
) -> bool {
    exists|id: AnimationId, v: &mut Value|
        #![trigger f.ensures((id, v), answer)]
        id.key() == k && f.ensures((id, v), answer) && *v == before
}

impl<Value> AnimationStorage<Value> {
    /// The values held, by slot and version.
    #[verifier::opaque]
    pub closed spec fn view(self) -> Map<(u32, u32), Value> {
        Map::new(
            |k: (u32, u32)| {
                &&& (k.0 as int) < self.contents@.len()
                &&& is_busy(self.contents@[k.0 as int])
                &&& busy_version(self.contents@[k.0 as int]) == k.1
            },
            |k: (u32, u32)| busy_value(self.contents@[k.0 as int]),
        )
    }

    /// The ids last held in the slots that are free now: each free slot with
    /// the version of the value it held last.
    #[verifier::opaque]
    pub closed spec fn freed_ids(self) -> Set<(u32, u32)> {
        Set::new(
            |k: (u32, u32)|
                {
                    &&& (k.0 as int) < self.contents@.len()
                    &&& !is_busy(self.contents@[k.0 as int])
                    &&& busy_version(self.contents@[k.0 as int]) == k.1
                },
        )
    }

    /// The number of values held.
    pub closed spec fn size_spec(self) -> nat {
        self.size as nat
    }

    /// The ids of the values held, in slot order.
    pub closed spec fn keys_in_order(self) -> Seq<(u32, u32)> {
        busy_keys(self.contents@, self.contents@.len())
    }

    /// The id the next value put in will get: the slot freed last, with its
    /// version bumped, or, with no slot free, a new slot after the others
    /// with version one.
    pub closed spec fn next_key(self) -> (u32, u32) {
        match self.first_free {
            Some(o) => (o, bumped_version(busy_version(self.contents@[o as int]))),
            None => (self.contents@.len() as u32, 1),
        }
    }

    /// The values held, in slot order.
    pub closed spec fn values_in_order(self) -> Seq<Value> {
        busy_values(self.contents@, self.contents@.len())
    }

    /// The free slots form one list from `first_free`, every slot that holds
    /// no value is on it, and `size` counts the others.
    #[verifier::opaque]
    pub closed spec fn wf(self) -> bool {
        let c = self.contents@;
        let fl = self.free_list@;
        &&& c.len() <= u32::MAX
        &&& fl.no_duplicates()
        &&& forall|i: int| 0 <= i < fl.len() ==> (#[trigger] fl[i] as int) < c.len()
        &&& forall|o: int| 0 <= o < c.len() ==> (!is_busy(#[trigger] c[o]) <==> fl.contains(o as u32))
        &&& self.first_free == (if fl.len() == 0 { None::<u32> } else { Some(fl[0]) })
        &&& forall|i: int| 0 <= i < fl.len() ==> (if i + 1 < fl.len() {
            (c[#[trigger] fl[i] as int] matches ASEntry::Free(_, next) && next == fl[i + 1])
        } else {
            c[fl[i] as int] is LastFree
        })
        &&& self.size == c.len() - fl.len()
        &&& forall|o: int| 0 <= o < c.len() ==> busy_version(#[trigger] c[o]) != 0
    }

    pub fn new() -> (r: Self)
        ensures
            r.wf(),
            r.view() == Map::<(u32, u32), Value>::empty(),
            r.size_spec() == 0,
    {
        let r = AnimationStorage {
            contents: Vec::new(),
            size: 0,
            first_free: None,
            free_list: Ghost(Seq::empty()),
        };
        assert(r.view() =~= Map::<(u32, u32), Value>::empty()) by {
            reveal(AnimationStorage::view);
        }
        assert(r.wf()) by {
            reveal(AnimationStorage::wf);
        reveal(AnimationStorage::view);
        }
        r
    }

    /// The number of values held.
    pub fn size(&self) -> (r: u32)
        ensures
            r == self.size_spec(),
    {
        self.size
    }

    pub fn is_empty(&self) -> (r: bool)
        ensures
            r == (self.size_spec() == 0),
    {
        self.size == 0
    }

    /// Whether `id` names a value held.
    pub fn contains(&self, id: AnimationId) -> (r: bool)
        requires
            self.wf(),
        ensures
            r == self.view().contains_key(id.key()),
    {
        proof {
            reveal(AnimationStorage::wf);
        reveal(AnimationStorage::view);
        }
        if (id.offset as usize) < self.contents.len() {
            match &self.contents[id.offset as usize] {
                ASEntry::Busy(version, _) => *version == id.version,
                _ => false,
            }
        } else {
            false
        }
    }

    /// The value that `id` names, if it is held.
    pub fn get(&self, id: AnimationId) -> (r: Option<&Value>)
        requires
            self.wf(),
        ensures
            r is Some <==> self.view().contains_key(id.key()),
            r matches Some(v) ==> *v == self.view()[id.key()],
    {
        proof {
            reveal(AnimationStorage::wf);
        reveal(AnimationStorage::view);
        }
        if (id.offset as usize) < self.contents.len() {
            match &self.contents[id.offset as usize] {
                ASEntry::Busy(version, seg) => {
                    if *version == id.version {
                        Some(seg)
                    } else {
                        None
                    }
                },
                _ => None,
            }
        } else {
            None
        }
    }

    /// The value that `id` names, for change, if it is held.
    pub fn get_mut(&mut self, id: AnimationId) -> (r: Option<&mut Value>)
        requires
            old(self).wf(),
        ensures
            final(self).wf(),
            r is Some <==> old(self).view().contains_key(id.key()),
            r matches Some(v) ==> *v == old(self).view()[id.key()]
                && final(self).view() == old(self).view().insert(id.key(), *final(v)),
            r is None ==> final(self).view() == old(self).view(),
            final(self).size_spec() == old(self).size_spec(),
    {
        proof {
            reveal(AnimationStorage::wf);
            reveal(AnimationStorage::view);
        }
        let ghost before = *self;
        if (id.offset as usize) < self.contents.len() {
            match &mut self.contents[id.offset as usize] {
                ASEntry::Busy(version, seg) => {
                    if *version == id.version {
                        Some(seg)
                    } else {
                        None
                    }
                },
                _ => None,
            }
        } else {
            None
        }
    }

    /// Puts `value` in a free slot, or a new one, and names it by a fresh id.
    pub fn insert(&mut self, value: Value) -> (id: AnimationId)
        requires
            old(self).wf(),
            old(self).size_spec() < u32::MAX,
        ensures
            final(self).wf(),
            !old(self).view().contains_key(id.key()),
            !old(self).freed_ids().contains(id.key()),
            id.key() == old(self).next_key(),
            final(self).view() == old(self).view().insert(id.key(), value),
            final(self).size_spec() == old(self).size_spec() + 1,
    {
        proof {
            reveal(AnimationStorage::wf);
            reveal(AnimationStorage::view);
            reveal(AnimationStorage::freed_ids);
        }
        let ghost old_view = self.view();
        let ghost fl = self.free_list@;
        self.size = self.size + 1;
        match self.first_free {
            Some(offset) => {
                let (first_free, version) = match &self.contents[offset as usize] {
                    ASEntry::LastFree(version) => (None, *version),
                    ASEntry::Free(version, next_free) => (Some(*next_free), *version),
                    ASEntry::Busy(version, _) => {
                        assert(fl.contains(offset));
                        (None, *version)
                    },
                };
                self.first_free = first_free;
                let version: u32 = if version == u32::MAX {
                    1
                } else {
                    version + 1
                };
                self.contents.set(offset as usize, ASEntry::Busy(version, value));
                self.free_list = Ghost(fl.drop_first());
                let id = AnimationId::new(offset, version);
                proof {
                    let c = self.contents@;
                    let nfl = self.free_list@;
                    assert(fl[0] == offset);
                    assert forall|o: int| 0 <= o < c.len() implies (!is_busy(#[trigger] c[o]) <==> nfl.contains(o as u32)) by {
                        if o != offset as int {
                            if fl.contains(o as u32) {
                                let i = choose|i: int| 0 <= i < fl.len() && fl[i] == o as u32;
                                assert(i != 0);
                                assert(nfl[i - 1] == o as u32);
                            }
                            if nfl.contains(o as u32) {
                                let i = choose|i: int| 0 <= i < nfl.len() && nfl[i] == o as u32;
                                assert(fl[i + 1] == o as u32);
                            }
                        } else {
                            if nfl.contains(o as u32) {
                                let i = choose|i: int| 0 <= i < nfl.len() && nfl[i] == o as u32;
                                assert(fl[i + 1] == fl[0]);
                            }
                        }
                    }
                    assert forall|i: int| 0 <= i < nfl.len() implies (if i + 1 < nfl.len() {
                        (c[#[trigger] nfl[i] as int] matches ASEntry::Free(_, next) && next == nfl[i + 1])
                    } else {
                        c[nfl[i] as int] is LastFree
                    }) by {
                        assert(nfl[i] == fl[i + 1]);
                        assert(fl[i + 1] != fl[0]);
                    }
                    if fl.len() > 1 {
                        assert(nfl[0] == fl[1]);
                    }
                    assert(!old_view.contains_key(id.key()));
                    assert(self.view() =~= old_view.insert(id.key(), value));
                }
                id
            },
            None => {
                let version: u32 = 1;
                let offset = self.contents.len() as u32;
                let id = AnimationId::new(offset, version);
                self.contents.push(ASEntry::Busy(version, value));
                proof {
                    let c = self.contents@;
                    assert(fl.len() == 0);
                    assert forall|o: int| 0 <= o < c.len() implies (!is_busy(#[trigger] c[o]) <==> fl.contains(o as u32)) by {
                        if o < c.len() - 1 {
                            assert(c[o] == old(self).contents@[o]);
                        }
                    }
                    assert(!old_view.contains_key(id.key()));
                    assert(self.view() =~= old_view.insert(id.key(), value));
                }
                id
            },
        }
    }

    /// Calls `f` on each value held, in slot order, with its id; `f` may change
    /// the value, and the value is removed when `f` returns `true`. The freed
    /// slots go to the front of the free list.
    pub fn remove_if<F: FnMut(AnimationId, &mut Value) -> bool>(&mut self, f: F)
        requires
            old(self).wf(),
            forall|id: AnimationId, v: &mut Value| #[trigger] f.requires((id, v)),
        ensures
            final(self).wf(),
            forall|k: (u32, u32)| #[trigger] final(self).view().contains_key(k) ==> old(self).view().contains_key(k),
            forall|k: (u32, u32)|
                old(self).view().contains_key(k) && !final(self).view().contains_key(k)
                    ==> #[trigger] final(self).freed_ids().contains(k),
            forall|k: (u32, u32)|
                old(self).view().contains_key(k) && #[trigger] final(self).view().contains_key(k)
                    ==> exists|id: AnimationId, v: &mut Value|
                    #![trigger f.ensures((id, v), false)]
                    id.key() == k && f.ensures((id, v), false) && *v == old(self).view()[k] && *final(v)
                        == final(self).view()[k],
            forall|k: (u32, u32)|
                old(self).view().contains_key(k) && !#[trigger] final(self).view().contains_key(k)
                    ==> visit_answer(f, k, old(self).view()[k], true),
            final(self).size_spec() <= old(self).size_spec(),
    {
        let ghost f0 = f;
        let mut f = f;
        let ghost orig = *self;
        let n = self.contents.len();
        let mut offset: usize = 0;
        while offset < n
            invariant
                n == self.contents@.len(),
                offset <= n,
                self.wf(),
                orig == *old(self),
                f == f0,
                forall|id: AnimationId, v: &mut Value| #[trigger] f.requires((id, v)),
                forall|k: (u32, u32)| #[trigger] self.view().contains_key(k) ==> orig.view().contains_key(k),
                forall|k: (u32, u32)|
                    #![trigger self.view().contains_key(k)]
                    orig.view().contains_key(k) && !self.view().contains_key(k) ==> (k.0 as int) < offset
                        && self.freed_ids().contains(k),
                forall|k: (u32, u32)|
                    orig.view().contains_key(k) && (k.0 as int) >= offset ==> #[trigger] self.view().contains_key(k)
                        && self.view()[k] == orig.view()[k],
                forall|k: (u32, u32)|
                    orig.view().contains_key(k) && #[trigger] self.view().contains_key(k) && (k.0 as int) < offset
                        ==> exists|id: AnimationId, v: &mut Value|
                        #![trigger f0.ensures((id, v), false)]
                        id.key() == k && f0.ensures((id, v), false) && *v == orig.view()[k] && *final(v)
                            == self.view()[k],
                forall|k: (u32, u32)|
                    orig.view().contains_key(k) && !#[trigger] self.view().contains_key(k)
                        ==> visit_answer(f0, k, orig.view()[k], true),
                self.size_spec() <= orig.size_spec(),
            decreases n - offset,
        {
            let ghost mid = *self;
            let ghost visited = offset as int;
            self.visit_slot(offset, &mut f);
            offset = offset + 1;
            proof {
                assert forall|k: (u32, u32)|
                    #![trigger self.view().contains_key(k)]
                    orig.view().contains_key(k) && !self.view().contains_key(k) implies (k.0 as int) < offset
                        && self.freed_ids().contains(k) by {
                    if mid.view().contains_key(k) {
                        assert(k.0 as int == visited);
                    } else {
                        assert(mid.freed_ids().contains(k));
                        assert((k.0 as int) < visited);
                    }
                }
                assert forall|k: (u32, u32)|
                    orig.view().contains_key(k) && (k.0 as int) >= offset implies #[trigger] self.view().contains_key(k)
                        && self.view()[k] == orig.view()[k] by {
                    assert(mid.view().contains_key(k));
                }
                assert forall|k: (u32, u32)|
                    orig.view().contains_key(k) && #[trigger] self.view().contains_key(k) && (k.0 as int) < offset
                        implies exists|id: AnimationId, v: &mut Value|
                        #![trigger f0.ensures((id, v), false)]
                        id.key() == k && f0.ensures((id, v), false) && *v == orig.view()[k] && *final(v)
                            == self.view()[k] by {
                    assert(mid.view().contains_key(k));
                    if k.0 as int == visited {
                        assert(mid.view()[k] == orig.view()[k]);
                    } else {
                        assert(self.view()[k] == mid.view()[k]);
                    }
                }
                assert forall|k: (u32, u32)|
                    orig.view().contains_key(k) && !#[trigger] self.view().contains_key(k)
                        implies visit_answer(f0, k, orig.view()[k], true) by {
                    if mid.view().contains_key(k) {
                        assert(k.0 as int == visited);
                        assert(mid.view()[k] == orig.view()[k]);
                    }
                }
            }
        }
        proof {
            assert forall|k: (u32, u32)| #[trigger] self.view().contains_key(k) implies (k.0 as int) < offset by {
                reveal(AnimationStorage::view);
            }
        }
    }

    /// Calls `f` on the value in slot `offset`, if any, and frees the slot
    /// when `f` returns `true`.
    fn visit_slot<F: FnMut(AnimationId, &mut Value) -> bool>(&mut self, offset: usize, f: &mut F)
        requires
            old(self).wf(),
            offset < old(self).contents@.len(),
            forall|id: AnimationId, v: &mut Value| #[trigger] (*old(f)).requires((id, v)),
        ensures
            final(self).wf(),
            final(self).contents@.len() == old(self).contents@.len(),
            forall|k: (u32, u32)| #[trigger] final(self).view().contains_key(k) ==> old(self).view().contains_key(k),
            forall|k: (u32, u32)|
                k.0 != offset ==> (#[trigger] final(self).view().contains_key(k) <==> old(self).view().contains_key(k)),
            forall|k: (u32, u32)|
                old(self).view().contains_key(k) && !final(self).view().contains_key(k)
                    ==> #[trigger] final(self).freed_ids().contains(k),
            forall|k: (u32, u32)|
                k.0 != offset && old(self).freed_ids().contains(k) ==> #[trigger] final(self).freed_ids().contains(k),
            forall|k: (u32, u32)|
                k.0 != offset && old(self).view().contains_key(k) ==> #[trigger] final(self).view()[k] == old(self).view()[k],
            forall|k: (u32, u32)|
                k.0 == offset && old(self).view().contains_key(k) && #[trigger] final(self).view().contains_key(k)
                    ==> exists|id: AnimationId, v: &mut Value|
                    #![trigger (*old(f)).ensures((id, v), false)]
                    id.key() == k && (*old(f)).ensures((id, v), false) && *v == old(self).view()[k] && *final(v)
                        == final(self).view()[k],
            forall|k: (u32, u32)|
                k.0 == offset && old(self).view().contains_key(k) && !#[trigger] final(self).view().contains_key(k)
                    ==> visit_answer(*old(f), k, old(self).view()[k], true),
            *final(f) == *old(f),
            final(self).size_spec() <= old(self).size_spec(),
            forall|id: AnimationId, v: &mut Value| #[trigger] (*final(f)).requires((id, v)),
    {
        let ghost before = *self;
        let ghost fl = self.free_list@;
        let entry = take_entry(&mut self.contents, offset);
        match entry {
            ASEntry::Busy(version, value) => {
                let mut value = value;
                proof {
                    lemma_busy_slot(before, offset as int);
                }
                let id = AnimationId::new(offset as u32, version);
                let ghost f0 = *f;
                let ghost v0 = value;
                let vref = &mut value;
                let remove = f(id, vref);
                let ghost k0 = (offset as u32, version);
                proof {
                    assert(exists|v: &mut Value| #[trigger] f0.ensures((id, v), remove) && *v == v0 && *final(v) == value);
                    assert(exists|i: AnimationId, v: &mut Value| #![trigger f0.ensures((i, v), remove)] i.key() == k0 && f0.ensures((i, v), remove) && *v == v0 && *final(v) == value);
                    reveal(AnimationStorage::view);
                    reveal(AnimationStorage::wf);
                    assert(before.contents@[offset as int] == ASEntry::Busy(version, v0));
                    assert(k0.0 as int == offset);
                    assert(before.view().contains_key(k0));
                    assert(before.view()[k0] == v0);
                    assert(forall|k: (u32, u32)| k.0 == offset && #[trigger] before.view().contains_key(k) ==> k == k0);
                }
                if remove {
                    let freed = match self.first_free {
                        Some(next) => ASEntry::Free(version, next),
                        None => ASEntry::LastFree(version),
                    };
                    self.contents.set(offset, freed);
                    self.first_free = Some(offset as u32);
                    self.size = self.size - 1;
                    self.free_list = Ghost(seq![offset as u32] + fl);
                    proof {
                        lemma_free_slot(before, *self, offset as int);
                        lemma_other_slots(before, *self, offset as int);
                        reveal(AnimationStorage::view);
                        reveal(AnimationStorage::freed_ids);
                        assert(!is_busy(self.contents@[offset as int]));
                        assert(visit_answer(f0, k0, v0, true));
                    }
                } else {
                    self.contents.set(offset, ASEntry::Busy(version, value));
                    proof {
                        lemma_replace_busy(before, *self, offset as int);
                        lemma_other_slots(before, *self, offset as int);
                        reveal(AnimationStorage::view);
                        assert(self.view()[k0] == value);
                        let (wi, wv) = choose|i: AnimationId, v: &mut Value|
                            #![trigger f0.ensures((i, v), remove)]
                            i.key() == k0 && f0.ensures((i, v), remove) && *v == v0 && *final(v) == value;
                        assert(f0.ensures((wi, wv), false));
                        assert(*old(f) == f0);
                        assert(wi.key() == k0 && (*old(f)).ensures((wi, wv), false) && *wv == old(self).view()[k0] && *final(wv) == self.view()[k0]);
                    }
                }
            },
            other => {
                self.contents.set(offset, other);
                assert(self.contents@ =~= before.contents@);
                proof {
                    lemma_same_contents(before, *self);
                    lemma_other_slots(before, *self, offset as int);
                    reveal(AnimationStorage::view);
                    assert(!is_busy(before.contents@[offset as int]));
                    assert(forall|k: (u32, u32)| k.0 == offset ==> !#[trigger] before.view().contains_key(k));
                }
            },
        }
    }

    /// Removes every value, and forgets the slots.
    pub fn clear(&mut self)
        ensures
            final(self).wf(),
            final(self).view() == Map::<(u32, u32), Value>::empty(),
            final(self).size_spec() == 0,
    {
        self.contents.clear();
        self.size = 0;
        self.first_free = None;
        self.free_list = Ghost(Seq::empty());
        assert(self.view() =~= Map::<(u32, u32), Value>::empty()) by {
            reveal(AnimationStorage::view);
        }
        assert(self.wf()) by {
            reveal(AnimationStorage::wf);
        reveal(AnimationStorage::view);
        }
    }

    /// The values held, in slot order.
    pub fn iter(&self) -> (r: Vec<&Value>)
        ensures
            r@.len() == self.values_in_order().len(),
            forall|i: int| 0 <= i < r@.len() ==> *r@[i] == self.values_in_order()[i],
    {
        let mut r: Vec<&Value> = Vec::new();
        let n = self.contents.len();
        let mut i: usize = 0;
        while i < n
            invariant
                n == self.contents@.len(),
                i <= n,
                r@.len() == busy_values(self.contents@, i as nat).len(),
                forall|k: int| 0 <= k < r@.len() ==> *r@[k] == busy_values(self.contents@, i as nat)[k],
            decreases n - i,
        {
            match &self.contents[i] {
                ASEntry::Busy(_, seg) => r.push(seg),
                _ => {},
            }
            i = i + 1;
        }
        r
    }
}

/// Takes the entry at `i` out, leaving a placeholder.
fn take_entry<Value>(v: &mut Vec<ASEntry<Value>>, i: usize) -> (r: ASEntry<Value>)
    requires
        i < old(v)@.len(),
    ensures
        r == old(v)@[i as int],
        final(v)@ == old(v)@.update(i as int, ASEntry::LastFree(0)),
{
    let mut entry = ASEntry::LastFree(0);
    std::mem::swap(&mut entry, &mut v[i]);
    entry
}

/// Slots other than `offset` that hold the same hold the same ids, and the
/// same freed ids.
proof fn lemma_other_slots<Value>(before: AnimationStorage<Value>, after: AnimationStorage<Value>, offset: int)
    requires
        after.contents@.len() == before.contents@.len(),
        forall|o: int| 0 <= o < before.contents@.len() && o != offset ==> after.contents@[o] == before.contents@[o],
    ensures
        forall|k: (u32, u32)|
            k.0 != offset ==> (#[trigger] after.view().contains_key(k) <==> before.view().contains_key(k)),
        forall|k: (u32, u32)|
            k.0 != offset ==> (#[trigger] after.freed_ids().contains(k) <==> before.freed_ids().contains(k)),
        forall|k: (u32, u32)|
            k.0 != offset && before.view().contains_key(k) ==> #[trigger] after.view()[k] == before.view()[k],
{
    reveal(AnimationStorage::view);
    reveal(AnimationStorage::freed_ids);
    assert forall|k: (u32, u32)| k.0 != offset implies (#[trigger] after.view().contains_key(k) <==> before.view().contains_key(k)) by {
        if (k.0 as int) < before.contents@.len() {
            assert(after.contents@[k.0 as int] == before.contents@[k.0 as int]);
        }
    }
    assert forall|k: (u32, u32)| k.0 != offset implies (#[trigger] after.freed_ids().contains(k) <==> before.freed_ids().contains(k)) by {
        if (k.0 as int) < before.contents@.len() {
            assert(after.contents@[k.0 as int] == before.contents@[k.0 as int]);
        }
    }
    assert forall|k: (u32, u32)| k.0 != offset && before.view().contains_key(k) implies #[trigger] after.view()[k] == before.view()[k] by {
        assert(after.contents@[k.0 as int] == before.contents@[k.0 as int]);
    }
}

/// Storages that agree on every field hold the same and are alike well formed.
proof fn lemma_same_contents<Value>(before: AnimationStorage<Value>, after: AnimationStorage<Value>)
    requires
        before.wf(),
        after.contents@ == before.contents@,
        after.free_list@ == before.free_list@,
        after.first_free == before.first_free,
        after.size == before.size,
    ensures
        after.wf(),
        after.view() == before.view(),
{
    reveal(AnimationStorage::wf);
    reveal(AnimationStorage::view);
    assert(after.view() =~= before.view());
}

/// A list of distinct slots below `n` has at most `n` entries.
proof fn lemma_distinct_below(s: Seq<u32>, n: nat)
    requires
        s.no_duplicates(),
        forall|i: int| 0 <= i < s.len() ==> (#[trigger] s[i] as nat) < n,
    ensures
        s.len() <= n,
    decreases n,
{
    if n == 0 {
        if s.len() > 0 {
            assert((s[0] as nat) < 0);
        }
    } else {
        let top = (n - 1) as u32;
        if s.contains(top) {
            let k = choose|k: int| 0 <= k < s.len() && s[k] == top;
            let t = s.remove(k);
            assert forall|i: int| 0 <= i < t.len() implies (#[trigger] t[i] as nat) < (n - 1) as nat by {
                if i < k {
                    assert(t[i] == s[i]);
                    assert(s[i] != s[k]);
                } else {
                    assert(t[i] == s[i + 1]);
                    assert(s[i + 1] != s[k]);
                }
            }
            assert forall|i: int, j: int| 0 <= i < t.len() && 0 <= j < t.len() && i != j implies t[i] != t[j] by {
                let si = if i < k { i } else { i + 1 };
                let sj = if j < k { j } else { j + 1 };
                assert(t[i] == s[si]);
                assert(t[j] == s[sj]);
            }
            lemma_distinct_below(t, (n - 1) as nat);
        } else {
            assert forall|i: int| 0 <= i < s.len() implies (#[trigger] s[i] as nat) < (n - 1) as nat by {
                assert(s[i] != top);
            }
            lemma_distinct_below(s, (n - 1) as nat);
        }
    }
}

/// What well-formedness says of a busy slot.
proof fn lemma_busy_slot<Value>(s: AnimationStorage<Value>, offset: int)
    requires
        s.wf(),
        0 <= offset < s.contents@.len(),
        is_busy(s.contents@[offset]),
    ensures
        busy_version(s.contents@[offset]) != 0,
        s.size >= 1,
        s.first_free == (if s.free_list@.len() == 0 { None::<u32> } else { Some(s.free_list@[0]) }),
        !s.free_list@.contains(offset as u32),
{
    reveal(AnimationStorage::wf);
    let fl = s.free_list@;
    let ext = fl.push(offset as u32);
    assert forall|i: int| 0 <= i < ext.len() implies (#[trigger] ext[i] as nat) < s.contents@.len() by {
        if i < fl.len() {
            assert(ext[i] == fl[i]);
        }
    }
    assert forall|i: int, j: int| 0 <= i < ext.len() && 0 <= j < ext.len() && i != j implies ext[i] != ext[j] by {
        if i < fl.len() && j < fl.len() {
            assert(ext[i] == fl[i] && ext[j] == fl[j]);
        } else if i < fl.len() {
            assert(ext[i] == fl[i]);
            assert(fl.contains(fl[i]));
        } else if j < fl.len() {
            assert(ext[j] == fl[j]);
            assert(fl.contains(fl[j]));
        }
    }
    lemma_distinct_below(ext, s.contents@.len());
}

/// Freeing a busy slot, with the slot pushed on the front of the free list,
/// keeps the storage well formed and only drops values.
proof fn lemma_free_slot<Value>(before: AnimationStorage<Value>, after: AnimationStorage<Value>, offset: int)
    requires
        before.wf(),
        0 <= offset < before.contents@.len(),
        is_busy(before.contents@[offset]),
        after.contents@.len() == before.contents@.len(),
        forall|o: int| 0 <= o < before.contents@.len() && o != offset ==> after.contents@[o] == before.contents@[o],
        after.free_list@ == seq![offset as u32] + before.free_list@,
        after.first_free == Some(offset as u32),
        after.size == before.size - 1,
        busy_version(after.contents@[offset]) == busy_version(before.contents@[offset]),
        before.free_list@.len() == 0 ==> after.contents@[offset] is LastFree,
        before.free_list@.len() > 0 ==> (after.contents@[offset] matches ASEntry::Free(_, next) && next == before.free_list@[0]),
    ensures
        after.wf(),
        forall|k: (u32, u32)| #[trigger] after.view().contains_key(k) ==> before.view().contains_key(k),
{
    reveal(AnimationStorage::wf);
        reveal(AnimationStorage::view);
    let c = after.contents@;
    let fl = before.free_list@;
    let nfl = after.free_list@;
    assert(!fl.contains(offset as u32));
    assert forall|o: int| 0 <= o < c.len() implies (!is_busy(#[trigger] c[o]) <==> nfl.contains(o as u32)) by {
        if o != offset {
            assert(c[o] == before.contents@[o]);
            if fl.contains(o as u32) {
                let i = choose|i: int| 0 <= i < fl.len() && fl[i] == o as u32;
                assert(nfl[i + 1] == o as u32);
            }
            if nfl.contains(o as u32) {
                let i = choose|i: int| 0 <= i < nfl.len() && nfl[i] == o as u32;
                assert(i != 0);
                assert(fl[i - 1] == o as u32);
            }
        } else {
            assert(nfl[0] == o as u32);
        }
    }
    assert forall|i: int| 0 <= i < nfl.len() implies (if i + 1 < nfl.len() {
        (c[#[trigger] nfl[i] as int] matches ASEntry::Free(_, next) && next == nfl[i + 1])
    } else {
        c[nfl[i] as int] is LastFree
    }) by {
        if i > 0 {
            assert(nfl[i] == fl[i - 1]);
            assert(fl[i - 1] != offset as u32);
        }
    }
    assert forall|i: int, j: int| 0 <= i < nfl.len() && 0 <= j < nfl.len() && i != j implies nfl[i] != nfl[j] by {
        if i > 0 && j > 0 {
            assert(nfl[i] == fl[i - 1]);
            assert(nfl[j] == fl[j - 1]);
        } else if i == 0 {
            assert(nfl[j] == fl[j - 1]);
        } else {
            assert(nfl[i] == fl[i - 1]);
        }
    }
    assert forall|o: int| 0 <= o < c.len() implies busy_version(#[trigger] c[o]) != 0 by {
        if o != offset {
            assert(c[o] == before.contents@[o]);
        }
    }
    assert forall|i: int| 0 <= i < nfl.len() implies (#[trigger] nfl[i] as int) < c.len() by {
        if i > 0 {
            assert(nfl[i] == fl[i - 1]);
        }
    }
    assert forall|k: (u32, u32)| #[trigger] after.view().contains_key(k) implies before.view().contains_key(k) by {
        assert(k.0 as int != offset);
        assert(c[k.0 as int] == before.contents@[k.0 as int]);
    }
}

/// Putting a value back in a busy slot, with the same version, keeps the
/// storage well formed and the same ids held.
proof fn lemma_replace_busy<Value>(before: AnimationStorage<Value>, after: AnimationStorage<Value>, offset: int)
    requires
        before.wf(),
        0 <= offset < before.contents@.len(),
        is_busy(before.contents@[offset]),
        is_busy(after.contents@[offset]),
        after.contents@.len() == before.contents@.len(),
        forall|o: int| 0 <= o < before.contents@.len() && o != offset ==> after.contents@[o] == before.contents@[o],
        after.free_list@ == before.free_list@,
        after.first_free == before.first_free,
        after.size == before.size,
        busy_version(after.contents@[offset]) == busy_version(before.contents@[offset]),
    ensures
        after.wf(),
        forall|k: (u32, u32)| #[trigger] after.view().contains_key(k) <==> before.view().contains_key(k),
{
    reveal(AnimationStorage::wf);
        reveal(AnimationStorage::view);
    let c = after.contents@;
    let fl = before.free_list@;
    assert forall|o: int| 0 <= o < c.len() implies (!is_busy(#[trigger] c[o]) <==> fl.contains(o as u32)) by {
        if o != offset {
            assert(c[o] == before.contents@[o]);
        }
    }
    assert forall|i: int| 0 <= i < fl.len() implies (if i + 1 < fl.len() {
        (c[#[trigger] fl[i] as int] matches ASEntry::Free(_, next) && next == fl[i + 1])
    } else {
        c[fl[i] as int] is LastFree
    }) by {
        assert(fl[i] as int != offset);
    }
    assert forall|o: int| 0 <= o < c.len() implies busy_version(#[trigger] c[o]) != 0 by {
        if o != offset {
            assert(c[o] == before.contents@[o]);
        }
    }
    assert forall|k: (u32, u32)| #[trigger] after.view().contains_key(k) <==> before.view().contains_key(k) by {
        if k.0 as int != offset && (k.0 as int) < c.len() {
            assert(c[k.0 as int] == before.contents@[k.0 as int]);
        }
    }
}

/// The number of values a storage reports is the number of ids it holds, so
/// a storage is empty exactly when it holds no value.
pub proof fn law_size_counts_held<Value>(s: AnimationStorage<Value>)
    requires
        s.wf(),
    ensures
        s.view().dom().finite(),
        s.view().dom().len() == s.size_spec(),
        s.size_spec() == 0 <==> s.view().dom() =~= Set::<(u32, u32)>::empty(),
{
    reveal(AnimationStorage::wf);
    reveal(AnimationStorage::view);
    let c = s.contents@;
    let fl = s.free_list@;
    let n = c.len() as int;
    let range = vstd::set_lib::set_int_range(0, n);
    let free = Set::new(|o: int| 0 <= o < n && !is_busy(c[o]));
    let busy = Set::new(|o: int| 0 <= o < n && is_busy(c[o]));
    vstd::set_lib::lemma_int_range(0, n);
    fl.unique_seq_to_set();
    let as_int = |u: u32| u as int;
    assert(fl.to_set().map(as_int) =~= free) by {
        assert forall|o: int| free.contains(o) implies fl.to_set().map(as_int).contains(o) by {
            assert(fl.contains(o as u32));
            assert(fl.to_set().contains(o as u32));
            assert(as_int(o as u32) == o);
        }
        assert forall|o: int| fl.to_set().map(as_int).contains(o) implies free.contains(o) by {
            let u = choose|u: u32| fl.to_set().contains(u) && as_int(u) == o;
            assert(fl.contains(u));
            let i = choose|i: int| 0 <= i < fl.len() && fl[i] == u;
            assert((fl[i] as int) < n);
        }
    }
    vstd::set_lib::lemma_map_size(fl.to_set(), free, as_int);
    assert(free.subset_of(range));
    vstd::set_lib::lemma_set_subset_finite(range, free);
    assert(range.intersect(free) =~= free);
    assert(range.difference(free) =~= busy);
    vstd::set_lib::lemma_set_difference_len(range, free);
    let key = |o: int| (o as u32, busy_version(c[o]));
    assert(busy.map(key) =~= s.view().dom()) by {
        assert forall|k: (u32, u32)| s.view().dom().contains(k) implies busy.map(key).contains(k) by {
            assert(busy.contains(k.0 as int));
            assert(key(k.0 as int) == k);
        }
    }
    assert(vstd::relations::injective_on(key, busy)) by {
        assert forall|a: int, b: int| busy.contains(a) && busy.contains(b) && #[trigger] key(a) == #[trigger] key(b) implies a == b by {
            assert(a as u32 as int == a);
            assert(b as u32 as int == b);
        }
    }
    vstd::set_lib::lemma_map_size(busy, s.view().dom(), key);
    if s.size_spec() == 0 {
        assert(s.view().dom() =~= Set::<(u32, u32)>::empty());
    }
}

/// After `insert` has named `value` by `id` (as its contract states), `get`
/// on `id` finds `value`, every other id finds what it found before, and one
/// more value is held.
pub proof fn law_get_after_insert<Value>(
    before: AnimationStorage<Value>,
    after: AnimationStorage<Value>,
    id: AnimationId,
    value: Value,
    other: AnimationId,
)
    requires
        before.wf(),
        after.wf(),
        !before.view().contains_key(id.key()),
        after.view() == before.view().insert(id.key(), value),
    ensures
        after.view().contains_key(id.key()),
        after.view()[id.key()] == value,
        other.key() != id.key() ==> (after.view().contains_key(other.key()) <==> before.view().contains_key(other.key())),
        other.key() != id.key() && before.view().contains_key(other.key()) ==> after.view()[other.key()] == before.view()[other.key()],
        after.size_spec() == before.size_spec() + 1,
{
    law_size_counts_held(before);
    law_size_counts_held(after);
    assert(after.view().dom() =~= before.view().dom().insert(id.key()));
}

/// An id whose value `remove_if` removed (its slot is then free, as its
/// contract states) is not the id `insert` gives next (as its contract
/// states), and it finds no value afterwards: a stale id never finds the
/// value put in its slot after it.
pub proof fn law_removed_id_stays_gone<Value>(
    mid: AnimationStorage<Value>,
    after: AnimationStorage<Value>,
    removed: AnimationId,
    id: AnimationId,
    value: Value,
)
    requires
        mid.freed_ids().contains(removed.key()),
        !mid.freed_ids().contains(id.key()),
        after.view() == mid.view().insert(id.key(), value),
    ensures
        id.key() != removed.key(),
        !after.view().contains_key(removed.key()),
{
    reveal(AnimationStorage::view);
    reveal(AnimationStorage::freed_ids);
    assert(!mid.view().contains_key(removed.key()));
}

/// Ids with the same slot and version are the same id.
pub proof fn law_id_key_identifies(a: AnimationId, b: AnimationId)
    ensures
        a.key() == b.key() <==> a == b,
{
}

/// What the listings of the first `n` slots hold: for each busy slot below
/// `n`, in slot order, its key and its value.
proof fn lemma_busy_listing<Value>(c: Seq<ASEntry<Value>>, n: nat)
    requires
        n <= c.len(),
        c.len() <= u32::MAX,
    ensures
        busy_keys(c, n).len() == busy_values(c, n).len(),
        forall|i: int|
            0 <= i < busy_keys(c, n).len() ==> {
                let k = #[trigger] busy_keys(c, n)[i];
                &&& (k.0 as int) < n
                &&& is_busy(c[k.0 as int])
                &&& busy_version(c[k.0 as int]) == k.1
                &&& busy_values(c, n)[i] == busy_value(c[k.0 as int])
            },
        forall|i: int, j: int|
            0 <= i < j < busy_keys(c, n).len() ==> busy_keys(c, n)[i].0 < busy_keys(c, n)[j].0,
        forall|o: int| 0 <= o < n && is_busy(#[trigger] c[o]) ==> busy_keys(c, n).contains((o as u32, busy_version(c[o]))),
    decreases n,
{
    if n > 0 {
        lemma_busy_listing(c, (n - 1) as nat);
        let pk = busy_keys(c, (n - 1) as nat);
        assert forall|o: int| 0 <= o < n && is_busy(#[trigger] c[o]) implies busy_keys(c, n).contains(
            (o as u32, busy_version(c[o])),
        ) by {
            if o < n - 1 {
                let i = choose|i: int| 0 <= i < pk.len() && pk[i] == (o as u32, busy_version(c[o]));
                assert(busy_keys(c, n)[i] == pk[i]);
            } else {
                assert(busy_keys(c, n)[busy_keys(c, n).len() - 1] == (o as u32, busy_version(c[o])));
            }
        }
    }
}

/// The listing of a storage is its values in slot order: one entry for each
/// id held, in ascending slots, with the value that id finds; so it has as
/// many entries as the storage counts.
pub proof fn law_listing_is_values_held<Value>(s: AnimationStorage<Value>)
    requires
        s.wf(),
    ensures
        s.keys_in_order().len() == s.values_in_order().len(),
        s.values_in_order().len() == s.size_spec(),
        forall|i: int|
            0 <= i < s.keys_in_order().len() ==> s.view().contains_key(#[trigger] s.keys_in_order()[i])
                && s.values_in_order()[i] == s.view()[s.keys_in_order()[i]],
        forall|k: (u32, u32)| #[trigger] s.view().contains_key(k) ==> s.keys_in_order().contains(k),
        forall|i: int, j: int|
            0 <= i < j < s.keys_in_order().len() ==> s.keys_in_order()[i].0 < s.keys_in_order()[j].0,
{
    reveal(AnimationStorage::wf);
    reveal(AnimationStorage::view);
    let c = s.contents@;
    lemma_busy_listing(c, c.len());
    let keys = s.keys_in_order();
    law_size_counts_held(s);
    assert forall|k: (u32, u32)| #[trigger] s.view().contains_key(k) implies keys.contains(k) by {
        assert(is_busy(c[k.0 as int]));
        assert((k.0 as int) as u32 == k.0);
    }
    assert(keys.no_duplicates()) by {
        assert forall|i: int, j: int| 0 <= i < keys.len() && 0 <= j < keys.len() && i != j implies keys[i]
            != keys[j] by {
            if i < j {
                assert(keys[i].0 < keys[j].0);
            } else {
                assert(keys[j].0 < keys[i].0);
            }
        }
    }
    keys.unique_seq_to_set();
    assert(keys.to_set() =~= s.view().dom()) by {
        assert forall|k: (u32, u32)| keys.to_set().contains(k) implies s.view().dom().contains(k) by {
            let i = choose|i: int| 0 <= i < keys.len() && keys[i] == k;
            assert(keys[i] == k);
        }
    }
}

impl<Value> Default for AnimationStorage<Value> {
    fn default() -> (r: Self)
        ensures
            r.wf(),
            r.view() == Map::<(u32, u32), Value>::empty(),
            r.size_spec() == 0,
    {
        AnimationStorage::new()
    }
}

} // verus!
