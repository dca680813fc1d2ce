use crate::axis::{offset_fits, shifted, AxisPair, LogIdx, TableAxis, VisIdx, VisOffset};
use crate::collections::{
    log_map_entries, log_map_get, log_map_insert, log_map_new, log_vector_get, log_vector_items,
    log_vector_len, log_vector_new, log_vector_push_back, sort_vector_clear, sort_vector_get, sort_vector_items,
    sort_vector_last, sort_vector_len, sort_vector_new, sort_vector_pop_back, sort_vector_push_back,
};
use crate::diff::IndexedData;
use crate::selection::CellDemap;
use std::cmp::Ordering;
use vstd::prelude::*;

verus! {

/// The display position of each data position listed in `vis_to_log`: the
/// index of its last occurrence.
pub open spec fn index_map(vis_to_log: Seq<LogIdx>) -> Map<LogIdx, VisIdx>
    decreases vis_to_log.len(),
{
    if vis_to_log.len() == 0 {
        Map::empty()
    } else {
        index_map(vis_to_log.drop_last()).insert(
            vis_to_log.last(),
            VisIdx((vis_to_log.len() - 1) as usize),
        )
    }
}

/// Every entry of `index_map(s)` points back at an occurrence of its key.
proof fn lemma_index_map_points_back(s: Seq<LogIdx>)
    requires
        s.len() <= usize::MAX,
    ensures
        forall|l: LogIdx| #[trigger] index_map(s).dom().contains(l) ==> {
            &&& index_map(s)[l].0 < s.len()
            &&& s[index_map(s)[l].0 as int] == l
        },
        forall|i: int| 0 <= i < s.len() ==> index_map(s).dom().contains(#[trigger] s[i]),
    decreases s.len(),
{
    if s.len() > 0 {
        let p = s.drop_last();
        lemma_index_map_points_back(p);
        assert forall|l: LogIdx| #[trigger] index_map(s).dom().contains(l) implies {
            &&& index_map(s)[l].0 < s.len()
            &&& s[index_map(s)[l].0 as int] == l
        } by {
            if l != s.last() {
                assert(index_map(p).dom().contains(l));
                assert(index_map(s)[l] == index_map(p)[l]);
                assert(s[index_map(p)[l].0 as int] == p[index_map(p)[l].0 as int]);
            }
        }
        assert forall|i: int| 0 <= i < s.len() implies index_map(s).dom().contains(#[trigger] s[i]) by {
            if i < s.len() - 1 {
                assert(s[i] == p[i]);
            }
        }
    }
}

/// Where no position occurs twice, `index_map(s)` maps each to its index.
proof fn lemma_index_map_distinct(s: Seq<LogIdx>)
    requires
        s.no_duplicates(),
        s.len() <= usize::MAX,
    ensures
        forall|i: int| 0 <= i < s.len() ==> #[trigger] index_map(s)[s[i]] == VisIdx(i as usize),
    decreases s.len(),
{
    if s.len() > 0 {
        let p = s.drop_last();
        assert(p.no_duplicates());
        lemma_index_map_distinct(p);
        assert forall|i: int| 0 <= i < s.len() implies #[trigger] index_map(s)[s[i]] == VisIdx(i as usize) by {
            if i < s.len() - 1 {
                assert(s[i] == p[i]);
                assert(s[i] != s[s.len() - 1]);
                assert(index_map(s)[s[i]] == index_map(p)[p[i]]);
            } else {
                assert(s[i] == s.last());
            }
        }
    }
}

/// A reordering of the data positions along an axis.
#[derive(Clone, Debug)]
pub enum RemapDetails {
    /// Display order to data position, and back.
    Full(im::Vector<LogIdx>, im::HashMap<LogIdx, VisIdx>),
}

impl RemapDetails {
    /// The data positions in display order.
    pub open spec fn vis_to_log(self) -> Seq<LogIdx> {
        match self {
            RemapDetails::Full(v, _) => log_vector_items(v),
        }
    }

    /// The display position of each data position.
    pub open spec fn log_to_vis(self) -> Map<LogIdx, VisIdx> {
        match self {
            RemapDetails::Full(_, m) => log_map_entries(m),
        }
    }

    /// The two directions agree, as `make_full` builds them.
    pub open spec fn wf(self) -> bool {
        &&& self.log_to_vis() == index_map(self.vis_to_log())
        &&& self.vis_to_log().len() <= usize::MAX
    }

    /// The remap that shows the data positions in the order given.
    pub fn make_full(vis_to_log: Vec<LogIdx>) -> (r: RemapDetails)
        ensures
            r.vis_to_log() == vis_to_log@,
            r.log_to_vis() == index_map(vis_to_log@),
            r.wf(),
    {
        let mut v = log_vector_new();
        let mut m = log_map_new();
        let n = vis_to_log.len();
        let mut i: usize = 0;
        while i < n
            invariant
                n == vis_to_log@.len(),
                i <= n,
                log_vector_items(v) == vis_to_log@.take(i as int),
                log_map_entries(m) == index_map(vis_to_log@.take(i as int)),
            decreases n - i,
        {
            let log = vis_to_log[i];
            log_vector_push_back(&mut v, log);
            log_map_insert(&mut m, log, VisIdx(i));
            proof {
                let next = vis_to_log@.take(i + 1);
                assert(next.drop_last() =~= vis_to_log@.take(i as int));
                assert(next.last() == log);
            }
            i = i + 1;
        }
        assert(vis_to_log@.take(n as int) =~= vis_to_log@);
        RemapDetails::Full(v, m)
    }

    pub open spec fn log_idx_spec(self, vis: VisIdx) -> Option<LogIdx> {
        if vis.0 < self.vis_to_log().len() {
            Some(self.vis_to_log()[vis.0 as int])
        } else {
            None
        }
    }

    pub open spec fn vis_idx_spec(self, log: LogIdx) -> Option<VisIdx> {
        if self.log_to_vis().dom().contains(log) {
            Some(self.log_to_vis()[log])
        } else {
            None
        }
    }

    fn get_log_idx(&self, vis: VisIdx) -> (r: Option<LogIdx>)
        ensures
            r == self.log_idx_spec(vis),
    {
        match self {
            RemapDetails::Full(vis_to_log, _) => log_vector_get(vis_to_log, vis.0),
        }
    }

    fn get_vis_idx(&self, log: LogIdx) -> (r: Option<VisIdx>)
        ensures
            r == self.vis_idx_spec(log),
    {
        match self {
            RemapDetails::Full(_, log_to_vis) => log_map_get(log_to_vis, &log),
        }
    }
}

/// How the positions along an axis are ordered for display.
#[derive(Debug, Clone)]
pub enum Remap {
    /// The data order, over this many positions.
    Pristine(usize),
    /// A reordering of the data.
    Selected(RemapDetails),
    /// The data source has done the reordering itself.
    Internal,
}

impl Remap {
    pub fn new(len: usize) -> (r: Remap)
        ensures
            r == Remap::Pristine(len),
    {
        Remap::Pristine(len)
    }

    pub fn is_pristine(&self) -> (r: bool)
        ensures
            r == (*self is Pristine),
    {
        match self {
            Remap::Pristine(_) => true,
            _ => false,
        }
    }

    /// The number of positions that `max_vis_idx` counts from.
    pub open spec fn counted_len(self, len: usize) -> int {
        match self {
            Remap::Selected(d) => d.vis_to_log().len() as int,
            _ => len as int,
        }
    }

    /// The last display position: one before the count, but not below zero.
    pub open spec fn max_vis_idx_spec(self, len: usize) -> VisIdx {
        VisIdx(shifted(self.counted_len(len), -1) as usize)
    }

    pub fn max_vis_idx(&self, len: usize) -> (r: VisIdx)
        requires
            self.counted_len(len) <= isize::MAX,
        ensures
            r == self.max_vis_idx_spec(len),
    {
        match self {
            Remap::Selected(RemapDetails::Full(v, _)) => {
                let n = log_vector_len(v);
                assert(offset_fits(VisIdx(n), -1));
                VisIdx(n).offset_by(VisOffset(-1))
            },
            _ => {
                assert(offset_fits(VisIdx(len), -1));
                VisIdx(len).offset_by(VisOffset(-1))
            },
        }
    }

    /// The data position shown at `vis`: a reordering looks it up, any other
    /// remap shows the data in its own order.
    pub open spec fn log_idx_spec(self, vis: VisIdx) -> Option<LogIdx> {
        match self {
            Remap::Selected(d) => d.log_idx_spec(vis),
            _ => Some(LogIdx(vis.0)),
        }
    }

    /// The display position of the data position `log`.
    pub open spec fn vis_idx_spec(self, log: LogIdx) -> Option<VisIdx> {
        match self {
            Remap::Selected(d) => d.vis_idx_spec(log),
            _ => Some(VisIdx(log.0)),
        }
    }

    pub fn get_log_idx(&self, vis_idx: VisIdx) -> (r: Option<LogIdx>)
        ensures
            r == self.log_idx_spec(vis_idx),
    {
        match self {
            Remap::Selected(v) => v.get_log_idx(vis_idx),
            _ => Some(LogIdx(vis_idx.0)),
        }
    }

    pub fn get_vis_idx(&self, log_idx: LogIdx) -> (r: Option<VisIdx>)
        ensures
            r == self.vis_idx_spec(log_idx),
    {
        match self {
            Remap::Selected(v) => v.get_vis_idx(log_idx),
            _ => Some(VisIdx(log_idx.0)),
        }
    }

    /// The data position shown at each display position up to `last`,
    /// falling back to the display position itself where none is mapped.
    pub fn log_idx_in_vis_order(&self, last: VisIdx) -> (r: Vec<LogIdx>)
        requires
            last.0 < usize::MAX,
        ensures
            r@.len() == last.0 + 1,
            forall|i: int| 0 <= i < r@.len() ==> #[trigger] r@[i] == (match self.log_idx_spec(VisIdx(i as usize)) {
                Some(l) => l,
                None => LogIdx(i as usize),
            }),
    {
        let mut r: Vec<LogIdx> = Vec::new();
        let mut i: usize = 0;
        while i <= last.0
            invariant
                i <= last.0 + 1,
                last.0 < usize::MAX,
                r@.len() == i,
                forall|k: int| 0 <= k < r@.len() ==> #[trigger] r@[k] == (match self.log_idx_spec(VisIdx(k as usize)) {
                    Some(l) => l,
                    None => LogIdx(k as usize),
                }),
            decreases last.0 + 1 - i,
        {
            let log = match self.get_log_idx(VisIdx(i)) {
                Some(l) => l,
                None => LogIdx(i),
            };
            r.push(log);
            i = i + 1;
        }
        r
    }

    /// The data positions shown, in display order, over the display positions
    /// up to `max_vis_idx(len)`; display positions that map to no data are
    /// skipped.
    pub open spec fn shown_in_order(self, upto: nat) -> Seq<LogIdx>
        decreases upto,
    {
        if upto == 0 {
            Seq::empty()
        } else {
            let prev = self.shown_in_order((upto - 1) as nat);
            match self.log_idx_spec(VisIdx((upto - 1) as usize)) {
                Some(l) => prev.push(l),
                None => prev,
            }
        }
    }

    /// The data positions whose lengths lay out the axis, in display order:
    /// for each display position from the first up to `max_vis_idx(len)`,
    /// the data position it shows, where there is one.
    pub fn shown_log_indices(&self, len: usize) -> (r: Vec<LogIdx>)
        requires
            self.counted_len(len) <= isize::MAX,
        ensures
            r@ == self.shown_in_order((self.max_vis_idx_spec(len).0 + 1) as nat),
    {
        let last = self.max_vis_idx(len);
        let mut r: Vec<LogIdx> = Vec::new();
        let mut i: usize = 0;
        while i <= last.0
            invariant
                i <= last.0 + 1,
                last.0 <= isize::MAX,
                r@ == self.shown_in_order(i as nat),
            decreases last.0 + 1 - i,
        {
            match self.get_log_idx(VisIdx(i)) {
                Some(l) => r.push(l),
                None => {},
            }
            i = i + 1;
        }
        r
    }
}

impl Remap {
    /// Both directions of the remap agree and no data position is shown twice.
    pub open spec fn is_consistent(self) -> bool {
        match self {
            Remap::Selected(d) => d.wf() && d.vis_to_log().no_duplicates(),
            _ => true,
        }
    }
}

/// A remap whose directions agree finds, from the display position of a data
/// position, that data position again.
pub proof fn law_vis_then_log(remap: Remap, log: LogIdx)
    requires
        remap matches Remap::Selected(d) ==> d.wf(),
    ensures
        remap.vis_idx_spec(log) matches Some(vis) ==> remap.log_idx_spec(vis) == Some(log),
{
    if let Remap::Selected(d) = remap {
        lemma_index_map_points_back(d.vis_to_log());
    }
}

/// A consistent remap finds, from the data position shown at a display
/// position, that display position again.
pub proof fn law_log_then_vis(remap: Remap, vis: VisIdx)
    requires
        remap.is_consistent(),
    ensures
        remap.log_idx_spec(vis) matches Some(log) ==> remap.vis_idx_spec(log) == Some(vis),
{
    if let Remap::Selected(d) = remap {
        lemma_index_map_points_back(d.vis_to_log());
        lemma_index_map_distinct(d.vis_to_log());
        if vis.0 < d.vis_to_log().len() {
            assert(index_map(d.vis_to_log())[d.vis_to_log()[vis.0 as int]] == VisIdx(vis.0));
        }
    }
}

/// A remap built by `make_full` from distinct positions is consistent.
pub proof fn law_make_full_consistent(vis_to_log: Seq<LogIdx>, d: RemapDetails)
    requires
        vis_to_log.no_duplicates(),
        d.vis_to_log() == vis_to_log,
        d.log_to_vis() == index_map(vis_to_log),
        vis_to_log.len() <= usize::MAX,
    ensures
        Remap::Selected(d).is_consistent(),
{
}

impl Default for Remap {
    fn default() -> (r: Self)
        ensures
            r == Remap::Pristine(0),
    {
        Remap::Pristine(0)
    }
}

impl CellDemap for AxisPair<Remap> {
    open spec fn log_idx_of(&self, axis: TableAxis, vis: VisIdx) -> Option<LogIdx> {
        self.at(axis).log_idx_spec(vis)
    }

    fn get_log_idx(&self, axis: TableAxis, vis: &VisIdx) -> (r: Option<LogIdx>) {
        self.get(&axis).get_log_idx(*vis)
    }
}

/// One header move: the position `vis` leaves the order `current` and goes
/// `move_by` positions along from where it was (stopping at the first); one
/// that would land at or past the end of what is left is set aside on
/// `past_end` instead. A position past the end of `current` moves nothing.
pub open spec fn header_move_step(
    current: Seq<LogIdx>,
    past_end: Seq<LogIdx>,
    vis: VisIdx,
    move_by: int,
) -> (Seq<LogIdx>, Seq<LogIdx>) {
    if vis.0 >= current.len() {
        (current, past_end)
    } else {
        let rest = current.remove(vis.0 as int);
        let target = shifted(vis.0 as int, move_by);
        if target >= rest.len() {
            (rest, past_end.push(current[vis.0 as int]))
        } else {
            (rest.insert(target, current[vis.0 as int]), past_end)
        }
    }
}

/// The moves of `headers`, one after the other, starting from `current` with
/// nothing set aside.
pub open spec fn header_moves(current: Seq<LogIdx>, headers: Seq<VisIdx>, move_by: int) -> (Seq<LogIdx>, Seq<LogIdx>)
    decreases headers.len(),
{
    if headers.len() == 0 {
        (current, Seq::empty())
    } else {
        let prev = header_moves(current, headers.drop_last(), move_by);
        header_move_step(prev.0, prev.1, headers.last(), move_by)
    }
}

/// The display order after the headers at `headers` move by `move_by`: when
/// moving forwards the headers are taken last first. Those set aside follow
/// the rest, in the order of their display positions.
pub open spec fn moved_order(current: Seq<LogIdx>, headers: Seq<VisIdx>, move_by: int) -> Seq<LogIdx> {
    let order = if move_by > 0 {
        headers.reverse()
    } else {
        headers
    };
    let moved = header_moves(current, order, move_by);
    moved.0 + (if move_by > 0 {
        moved.1.reverse()
    } else {
        moved.1
    })
}

/// The data positions shown at the first `size` display positions, falling
/// back to the display position itself where none is mapped.
pub open spec fn vis_order(remap: Remap, size: nat) -> Seq<LogIdx> {
    Seq::new(
        size,
        |i: int|
            match remap.log_idx_spec(VisIdx(i as usize)) {
                Some(l) => l,
                None => LogIdx(i as usize),
            },
    )
}

/// `v` back to front.
fn reversed<T: Copy>(v: &Vec<T>) -> (r: Vec<T>)
    ensures
        r@ == v@.reverse(),
{
    let mut r: Vec<T> = Vec::new();
    let n = v.len();
    let mut i: usize = 0;
    while i < n
        invariant
            n == v@.len(),
            i <= n,
            r@.len() == i,
            forall|k: int| 0 <= k < i ==> r@[k] == v@[n - 1 - k],
        decreases n - i,
    {
        r.push(v[n - 1 - i]);
        i = i + 1;
    }
    assert(r@ =~= v@.reverse());
    r
}

/// The display order after the headers at `headers_moved` (display
/// positions) move by `move_by`.
pub fn moved_header_order(current: Vec<LogIdx>, headers_moved: Vec<VisIdx>, move_by: VisOffset) -> (r: Vec<LogIdx>)
    requires
        forall|i: int| 0 <= i < headers_moved@.len() ==> offset_fits(#[trigger] headers_moved@[i], move_by.0 as int),
    ensures
        r@ == moved_order(current@, headers_moved@, move_by.0 as int),
{
    let forwards = move_by.0 > 0;
    let order = if forwards {
        reversed(&headers_moved)
    } else {
        headers_moved
    };
    assert forall|i: int| 0 <= i < order@.len() implies offset_fits(#[trigger] order@[i], move_by.0 as int) by {
        if forwards {
            assert(order@[i] == headers_moved@[headers_moved@.len() - 1 - i]);
        }
    }
    let mut current = current;
    let mut past_end: Vec<LogIdx> = Vec::new();
    let ghost start = current@;
    let n = order.len();
    let mut i: usize = 0;
    while i < n
        invariant
            n == order@.len(),
            i <= n,
            forall|k: int| 0 <= k < order@.len() ==> offset_fits(#[trigger] order@[k], move_by.0 as int),
            (current@, past_end@) == header_moves(start, order@.take(i as int), move_by.0 as int),
        decreases n - i,
    {
        let vis_idx = order[i];
        let new_vis = vis_idx.offset_by(move_by);
        proof {
            assert(order@.take(i + 1).drop_last() =~= order@.take(i as int));
            assert(order@.take(i + 1).last() == vis_idx);
        }
        if vis_idx.0 < current.len() {
            let log_idx = current.remove(vis_idx.0);
            if new_vis.0 >= current.len() {
                past_end.push(log_idx);
            } else {
                current.insert(new_vis.0, log_idx);
            }
        }
        i = i + 1;
    }
    assert(order@.take(n as int) =~= order@);
    let mut tail = if forwards {
        reversed(&past_end)
    } else {
        past_end
    };
    current.append(&mut tail);
    current
}

/// The moves keep, between what is left and what is set aside, every data
/// position as often as it was there.
proof fn lemma_header_moves_keep(current: Seq<LogIdx>, headers: Seq<VisIdx>, move_by: int)
    ensures
        header_moves(current, headers, move_by).0.to_multiset().add(
            header_moves(current, headers, move_by).1.to_multiset(),
        ) == current.to_multiset(),
    decreases headers.len(),
{
    broadcast use vstd::seq_lib::group_to_multiset_ensures;
    broadcast use vstd::multiset::group_multiset_axioms;

    if headers.len() == 0 {
        assert(Seq::<LogIdx>::empty().to_multiset() =~= vstd::multiset::Multiset::empty());
        assert(current.to_multiset().add(vstd::multiset::Multiset::empty()) =~= current.to_multiset());
    } else {
        let prev = header_moves(current, headers.drop_last(), move_by);
        lemma_header_moves_keep(current, headers.drop_last(), move_by);
        let vis = headers.last();
        if vis.0 < prev.0.len() {
            let x = prev.0[vis.0 as int];
            let rest = prev.0.remove(vis.0 as int);
            vstd::seq_lib::to_multiset_remove(prev.0, vis.0 as int);
            let target = shifted(vis.0 as int, move_by);
            assert(prev.0.to_multiset() =~= rest.to_multiset().insert(x));
            if target >= rest.len() {
                vstd::seq_lib::to_multiset_build(prev.1, x);
                assert(rest.to_multiset().add(prev.1.push(x).to_multiset()) =~= prev.0.to_multiset().add(
                    prev.1.to_multiset(),
                ));
            } else {
                vstd::seq_lib::to_multiset_insert(rest, target, x);
                assert(rest.insert(target, x).to_multiset().add(prev.1.to_multiset()) =~= prev.0.to_multiset().add(
                    prev.1.to_multiset(),
                ));
            }
        }
    }
}

/// Moving headers only reorders: every data position stays as often as it
/// was, and the order keeps its length.
pub proof fn law_header_move_permutes(current: Seq<LogIdx>, headers: Seq<VisIdx>, move_by: int)
    ensures
        moved_order(current, headers, move_by).to_multiset() == current.to_multiset(),
        moved_order(current, headers, move_by).len() == current.len(),
{
    broadcast use vstd::seq_lib::group_to_multiset_ensures;

    let order = if move_by > 0 {
        headers.reverse()
    } else {
        headers
    };
    let moved = header_moves(current, order, move_by);
    lemma_header_moves_keep(current, order, move_by);
    moved.1.lemma_reverse_to_multiset();
    let tail = if move_by > 0 {
        moved.1.reverse()
    } else {
        moved.1
    };
    vstd::seq_lib::lemma_multiset_commutative(moved.0, tail);
    assert(moved_order(current, headers, move_by) == moved.0 + tail);
    assert(moved_order(current, headers, move_by).to_multiset() =~= current.to_multiset());
    vstd::seq_lib::to_multiset_len(moved_order(current, headers, move_by));
    vstd::seq_lib::to_multiset_len(current);
}

/// Moving headers of an order that shows no data position twice gives such
/// an order again, so the remap built from it is consistent.
pub proof fn law_header_move_keeps_positions_distinct(current: Seq<LogIdx>, headers: Seq<VisIdx>, move_by: int)
    requires
        current.no_duplicates(),
        current.len() <= usize::MAX,
    ensures
        moved_order(current, headers, move_by).no_duplicates(),
        forall|d: RemapDetails|
            #![trigger d.vis_to_log()]
            d.vis_to_log() == moved_order(current, headers, move_by) && d.log_to_vis() == index_map(d.vis_to_log())
                ==> Remap::Selected(d).is_consistent(),
{
    let moved = moved_order(current, headers, move_by);
    law_header_move_permutes(current, headers, move_by);
    current.lemma_multiset_has_no_duplicates();
    moved.lemma_multiset_has_no_duplicates_conv();
}

/// The remap after the headers wholly selected along an axis of `size`
/// positions, `headers_moved`, are dragged from `moved_from` to `moved_to`;
/// `None` where nothing moves: an empty axis, no distance, or no header
/// wholly selected.
pub fn header_move_remap(
    remap: &Remap,
    size: usize,
    moved_from: VisIdx,
    moved_to: VisIdx,
    headers_moved: Option<Vec<VisIdx>>,
) -> (r: Option<Remap>)
    requires
        moved_from.0 <= isize::MAX,
        moved_to.0 <= isize::MAX,
        headers_moved matches Some(hs) ==> forall|i: int|
            0 <= i < hs@.len() ==> offset_fits(#[trigger] hs@[i], moved_to.0 - moved_from.0),
    ensures
        r is Some <==> (size > 0 && moved_from != moved_to && headers_moved is Some),
        r matches Some(m) ==> (m matches Remap::Selected(d) && d.wf() && d.vis_to_log() == moved_order(
            vis_order(*remap, size as nat),
            headers_moved.unwrap()@,
            moved_to.0 - moved_from.0,
        )),
{
    if size == 0 {
        return None;
    }
    let last_vis = VisIdx(size - 1);
    let move_by = moved_to.offset_from(moved_from);
    if move_by.0 == 0 {
        return None;
    }
    match headers_moved {
        Some(headers) => {
            let current = remap.log_idx_in_vis_order(last_vis);
            assert(current@ =~= vis_order(*remap, size as nat));
            let order = moved_header_order(current, headers, move_by);
            Some(Remap::Selected(RemapDetails::make_full(order)))
        },
        None => None,
    }
}

/// The order that sorting on a column applies.
#[derive(Clone, Copy, Ord, PartialOrd, Eq, PartialEq, Structural, Debug)]
pub enum SortDirection {
    Ascending,
    Descending,
}

/// `ord` the other way round.
pub open spec fn reversed_order(ord: Ordering) -> Ordering {
    match ord {
        Ordering::Less => Ordering::Greater,
        Ordering::Equal => Ordering::Equal,
        Ordering::Greater => Ordering::Less,
    }
}

impl SortDirection {
    /// Applies the direction to the result of an ascending comparison.
    pub fn apply(&self, ord: Ordering) -> (r: Ordering)
        ensures
            r == (match *self {
                SortDirection::Descending => reversed_order(ord),
                SortDirection::Ascending => ord,
            }),
    {
        match self {
            SortDirection::Descending => match ord {
                Ordering::Less => Ordering::Greater,
                Ordering::Equal => Ordering::Equal,
                Ordering::Greater => Ordering::Less,
            },
            SortDirection::Ascending => ord,
        }
    }
}

/// Sorting on one column (or the position of a sort among others).
#[derive(Clone, Copy, Debug, PartialEq, Eq, Structural)]
pub struct SortSpec {
    pub idx: usize,
    pub direction: SortDirection,
}

impl SortSpec {
    pub fn new(idx: usize, direction: SortDirection) -> (r: Self)
        ensures
            r.idx == idx,
            r.direction == direction,
    {
        SortSpec { idx, direction }
    }

    /// The same sort, descending.
    pub fn descending(self) -> (r: Self)
        ensures
            r.idx == self.idx,
            r.direction == SortDirection::Descending,
    {
        let mut s = self;
        s.direction = SortDirection::Descending;
        s
    }
}

/// The sorts that order the rows, the first taking precedence.
#[derive(Clone, Debug)]
pub struct RemapSpec {
    pub(crate) sort_by: im::Vector<SortSpec>,
}

/// The sorts after a toggle of the sort on column `log_idx`: toggling the
/// last sort turns ascending into descending and descending into none; any
/// other column starts an ascending sort, after the others when `extend`,
/// alone otherwise.
pub open spec fn toggled_sorts(sorts: Seq<SortSpec>, log_idx: usize, extend: bool) -> Seq<SortSpec> {
    if sorts.len() > 0 && sorts.last().idx == log_idx {
        if sorts.last().direction == SortDirection::Ascending {
            sorts.drop_last().push(SortSpec { idx: log_idx, direction: SortDirection::Descending })
        } else {
            sorts.drop_last()
        }
    } else {
        let kept = if extend { sorts } else { Seq::empty() };
        kept.push(SortSpec { idx: log_idx, direction: SortDirection::Ascending })
    }
}

impl RemapSpec {
    /// The sorts, the first taking precedence.
    pub closed spec fn sorts(self) -> Seq<SortSpec> {
        sort_vector_items(self.sort_by)
    }

    pub fn add_sort(&mut self, s: SortSpec)
        ensures
            final(self).sorts() == old(self).sorts().push(s),
    {
        sort_vector_push_back(&mut self.sort_by, s)
    }

    /// The sorts, the first taking precedence.
    pub fn sort_specs(&self) -> (r: Vec<SortSpec>)
        ensures
            r@ == self.sorts(),
    {
        let n = sort_vector_len(&self.sort_by);
        let mut r: Vec<SortSpec> = Vec::new();
        let mut i: usize = 0;
        while i < n
            invariant
                n == self.sorts().len(),
                i <= n,
                r@ == self.sorts().take(i as int),
            decreases n - i,
        {
            match sort_vector_get(&self.sort_by, i) {
                Some(s) => r.push(s),
                None => {},
            }
            assert(self.sorts().take(i + 1) =~= self.sorts().take(i as int).push(self.sorts()[i as int]));
            i = i + 1;
        }
        assert(self.sorts().take(n as int) =~= self.sorts());
        r
    }

    pub fn is_empty(&self) -> (r: bool)
        ensures
            r == (self.sorts().len() == 0),
    {
        sort_vector_len(&self.sort_by) == 0
    }

    /// Toggles the sort on column `log_idx`; always reports a change.
    pub fn toggle_sort(&mut self, log_idx: LogIdx, extend: bool) -> (r: bool)
        ensures
            r,
            final(self).sorts() == toggled_sorts(old(self).sorts(), log_idx.0, extend),
    {
        let log_idx = log_idx.0;
        match sort_vector_last(&self.sort_by) {
            Some(last) if last.idx == log_idx => {
                let dir = last.direction;
                let _ = sort_vector_pop_back(&mut self.sort_by);
                if dir == SortDirection::Ascending {
                    sort_vector_push_back(&mut self.sort_by, SortSpec::new(log_idx, SortDirection::Descending));
                }
            },
            _ => {
                if !extend {
                    sort_vector_clear(&mut self.sort_by);
                }
                sort_vector_push_back(&mut self.sort_by, SortSpec::new(log_idx, SortDirection::Ascending));
            },
        }
        true
    }
}

/// Toggling the sort on a column that is not the last sort three times, with
/// `extend`, restores the sorts: ascending, then descending, then none.
pub proof fn law_toggle_cycle(sorts: Seq<SortSpec>, log_idx: usize)
    requires
        sorts.len() == 0 || sorts.last().idx != log_idx,
    ensures
        toggled_sorts(sorts, log_idx, true).last() == (SortSpec { idx: log_idx, direction: SortDirection::Ascending }),
        toggled_sorts(toggled_sorts(sorts, log_idx, true), log_idx, true).last() == (SortSpec { idx: log_idx, direction: SortDirection::Descending }),
        toggled_sorts(toggled_sorts(toggled_sorts(sorts, log_idx, true), log_idx, true), log_idx, true) == sorts,
{
    let t1 = toggled_sorts(sorts, log_idx, true);
    assert(t1.drop_last() =~= sorts);
    let t2 = toggled_sorts(t1, log_idx, true);
    assert(t2.drop_last() =~= sorts);
}

/// Toggling a column that is not the last sort without `extend` leaves only
/// an ascending sort on it.
pub proof fn law_toggle_alone(sorts: Seq<SortSpec>, log_idx: usize)
    requires
        sorts.len() == 0 || sorts.last().idx != log_idx,
    ensures
        toggled_sorts(sorts, log_idx, false) == seq![SortSpec { idx: log_idx, direction: SortDirection::Ascending }],
{
    assert(toggled_sorts(sorts, log_idx, false) =~= seq![SortSpec { idx: log_idx, direction: SortDirection::Ascending }]);
}

/// Toggling the column of the last sort changes only that last sort, with or
/// without `extend`: the earlier sorts stay as they were, in order; an
/// ascending last sort turns descending, a descending one is removed.
pub proof fn law_toggle_last_keeps_earlier(sorts: Seq<SortSpec>, log_idx: usize, extend: bool)
    requires
        sorts.len() > 0,
        sorts.last().idx == log_idx,
    ensures
        toggled_sorts(sorts, log_idx, extend).len() >= sorts.len() - 1,
        toggled_sorts(sorts, log_idx, extend).take(sorts.len() - 1) == sorts.take(sorts.len() - 1),
        sorts.last().direction == SortDirection::Ascending ==> toggled_sorts(sorts, log_idx, extend).len() == sorts.len()
            && toggled_sorts(sorts, log_idx, extend).last() == (SortSpec { idx: log_idx, direction: SortDirection::Descending }),
        sorts.last().direction == SortDirection::Descending ==> toggled_sorts(sorts, log_idx, extend).len() == sorts.len() - 1,
        toggled_sorts(sorts, log_idx, extend) == toggled_sorts(sorts, log_idx, !extend),
{
    let t = toggled_sorts(sorts, log_idx, extend);
    assert(t.take(sorts.len() - 1) =~= sorts.take(sorts.len() - 1));
}

/// `s` from position `i` on.
pub open spec fn tail_from<A>(s: Seq<A>, i: usize) -> Seq<A> {
    s.skip(i as int)
}

/// `u` as an integer.
pub open spec fn widened(u: usize) -> int {
    u as int
}

/// The item of `s` at position `i`.
pub open spec fn item_at<A>(s: Seq<A>, i: usize) -> A {
    s[i as int]
}

/// The order of two data positions by themselves.
pub open spec fn position_order(a: usize, b: usize) -> Ordering {
    if a < b {
        Ordering::Less
    } else if a == b {
        Ordering::Equal
    } else {
        Ordering::Greater
    }
}

/// The order of the rows at `a` and `b` under `sorts`, where `orders[i]` is
/// how the column of `sorts[i]` orders the two rows (`None` where there is no
/// such column): the first sort whose column tells the rows apart decides,
/// in its direction; a sort on a missing column puts the first row first;
/// rows that no sort tells apart go by their data positions.
pub open spec fn sorted_order(sorts: Seq<SortSpec>, orders: Seq<Option<Ordering>>, a: usize, b: usize) -> Ordering
    decreases sorts.len(),
{
    if sorts.len() == 0 || orders.len() == 0 {
        position_order(a, b)
    } else {
        match orders[0] {
            None => Ordering::Less,
            Some(o) => if o != Ordering::Equal {
                match sorts[0].direction {
                    SortDirection::Descending => reversed_order(o),
                    SortDirection::Ascending => o,
                }
            } else {
                sorted_order(sorts.drop_first(), orders.drop_first(), a, b)
            },
        }
    }
}

impl RemapSpec {
    /// The order of the rows at `a` and `b` under these sorts, where
    /// `column_orders[i]` is how the column of the `i`-th sort orders them
    /// (`None` where there is no such column).
    pub fn compare_rows(&self, column_orders: &Vec<Option<Ordering>>, a: LogIdx, b: LogIdx) -> (r: Ordering)
        requires
            column_orders@.len() == self.sorts().len(),
        ensures
            r == sorted_order(self.sorts(), column_orders@, a.0, b.0),
    {
        let n = sort_vector_len(&self.sort_by);
        let mut i: usize = 0;
        assert(tail_from(self.sorts(), i) =~= self.sorts());
        assert(tail_from(column_orders@, i) =~= column_orders@);
        while i < n
            invariant
                n == self.sorts().len(),
                column_orders@.len() == n,
                i <= n,
                sorted_order(self.sorts(), column_orders@, a.0, b.0) == sorted_order(
                    tail_from(self.sorts(), i),
                    tail_from(column_orders@, i),
                    a.0,
                    b.0,
                ),
            decreases n - i,
        {
            let ghost rest_s = tail_from(self.sorts(), i);
            let ghost rest_o = tail_from(column_orders@, i);
            let spec = match sort_vector_get(&self.sort_by, i) {
                Some(s) => s,
                None => {
                    return Ordering::Less;
                },
            };
            assert(rest_s[0] == spec);
            assert(rest_o[0] == item_at(column_orders@, i));
            match column_orders[i] {
                None => {
                    return Ordering::Less;
                },
                Some(o) => {
                    let equal = match o {
                        Ordering::Equal => true,
                        _ => false,
                    };
                    if !equal {
                        return spec.direction.apply(o);
                    }
                },
            }
            let next = i + 1;
            assert(rest_s.drop_first() =~= tail_from(self.sorts(), next));
            assert(rest_o.drop_first() =~= tail_from(column_orders@, next));
            i = next;
        }
        if a.0 < b.0 {
            Ordering::Less
        } else if a.0 == b.0 {
            Ordering::Equal
        } else {
            Ordering::Greater
        }
    }
}

/// Where every sorted column exists and orders the rows one way round as the
/// reverse of the other, comparing the rows the other way round gives the
/// reverse order.
pub proof fn law_sorted_order_reverses(
    sorts: Seq<SortSpec>,
    orders_ab: Seq<Option<Ordering>>,
    orders_ba: Seq<Option<Ordering>>,
    a: usize,
    b: usize,
)
    requires
        orders_ab.len() == sorts.len(),
        orders_ba.len() == sorts.len(),
        forall|i: int| 0 <= i < sorts.len() ==> (#[trigger] orders_ab[i]) is Some,
        forall|i: int| 0 <= i < sorts.len() ==> #[trigger] orders_ba[i] == Some(reversed_order(orders_ab[i].unwrap())),
    ensures
        sorted_order(sorts, orders_ba, b, a) == reversed_order(sorted_order(sorts, orders_ab, a, b)),
    decreases sorts.len(),
{
    if sorts.len() > 0 {
        let t_ab = orders_ab.drop_first();
        let t_ba = orders_ba.drop_first();
        assert forall|i: int| 0 <= i < sorts.drop_first().len() implies (#[trigger] t_ab[i]) is Some by {
            assert(t_ab[i] == orders_ab[i + 1]);
        }
        assert forall|i: int| 0 <= i < sorts.drop_first().len() implies #[trigger] t_ba[i] == Some(
            reversed_order(t_ab[i].unwrap()),
        ) by {
            assert(t_ab[i] == orders_ab[i + 1]);
            assert(t_ba[i] == orders_ba[i + 1]);
        }
        assert(orders_ab[0] is Some);
        assert(orders_ba[0] == Some(reversed_order(orders_ab[0].unwrap())));
        law_sorted_order_reverses(sorts.drop_first(), t_ab, t_ba, a, b);
    }
}

/// `orders` are answers `compare` may give, for the column of each of
/// `sorts` in turn, on the rows at `a` and `b`.
pub open spec fn column_answers<C: Fn(usize, LogIdx, LogIdx) -> Option<Ordering>>(
    compare: C,
    sorts: Seq<SortSpec>,
    a: LogIdx,
    b: LogIdx,
    orders: Seq<Option<Ordering>>,
) -> bool {
    &&& orders.len() == sorts.len()
    &&& forall|i: int| 0 <= i < sorts.len() ==> compare.ensures((sorts[i].idx, a, b), #[trigger] orders[i])
}

/// `compare` may order the rows at `a` and `b` as `o` under `sorts`.
pub open spec fn may_order<C: Fn(usize, LogIdx, LogIdx) -> Option<Ordering>>(
    compare: C,
    sorts: Seq<SortSpec>,
    a: LogIdx,
    b: LogIdx,
    o: Ordering,
) -> bool {
    exists|orders: Seq<Option<Ordering>>|
        #[trigger] column_answers(compare, sorts, a, b, orders) && sorted_order(sorts, orders, a.0, b.0) == o
}

/// `compare` was seen to put the row at `a` no later than the row at `b`:
/// it may order `a` before or level with `b`, or `b` after `a`.
pub open spec fn seen_in_order<C: Fn(usize, LogIdx, LogIdx) -> Option<Ordering>>(
    compare: C,
    sorts: Seq<SortSpec>,
    a: LogIdx,
    b: LogIdx,
) -> bool {
    ||| may_order(compare, sorts, a, b, Ordering::Less)
    ||| may_order(compare, sorts, a, b, Ordering::Equal)
    ||| may_order(compare, sorts, b, a, Ordering::Greater)
}

/// Each pair of neighbours in `order` was seen in order.
pub open spec fn sorted_by<C: Fn(usize, LogIdx, LogIdx) -> Option<Ordering>>(
    compare: C,
    sorts: Seq<SortSpec>,
    order: Seq<LogIdx>,
) -> bool {
    forall|i: int, j: int|
        0 <= i && j == i + 1 && j < order.len() ==> #[trigger] seen_in_order(compare, sorts, order[i], order[j])
}

/// `order` holds each data position below `len` once.
pub open spec fn positions_below(order: Seq<LogIdx>, len: usize) -> bool {
    &&& order.len() == len
    &&& order.no_duplicates()
    &&& forall|i: int| 0 <= i < order.len() ==> (#[trigger] order[i]).0 < len
}

/// How `compare` orders the columns of each sort on the rows at `a` and `b`.
fn column_orders<C: Fn(usize, LogIdx, LogIdx) -> Option<Ordering>>(
    spec: &RemapSpec,
    compare: &C,
    a: LogIdx,
    b: LogIdx,
) -> (r: Vec<Option<Ordering>>)
    requires
        forall|c: usize, x: LogIdx, y: LogIdx| compare.requires((c, x, y)),
    ensures
        column_answers(*compare, spec.sorts(), a, b, r@),
{
    let sorts = spec.sort_specs();
    let n = sorts.len();
    let mut r: Vec<Option<Ordering>> = Vec::new();
    let mut i: usize = 0;
    while i < n
        invariant
            n == sorts@.len(),
            sorts@ == spec.sorts(),
            i <= n,
            r@.len() == i,
            forall|c: usize, x: LogIdx, y: LogIdx| compare.requires((c, x, y)),
            forall|k: int| 0 <= k < i ==> compare.ensures((sorts@[k].idx, a, b), #[trigger] r@[k]),
        decreases n - i,
    {
        let o = compare(sorts[i].idx, a, b);
        r.push(o);
        i = i + 1;
    }
    r
}

/// How `compare` orders the rows at `a` and `b` under the sorts.
fn row_order<C: Fn(usize, LogIdx, LogIdx) -> Option<Ordering>>(
    spec: &RemapSpec,
    compare: &C,
    a: LogIdx,
    b: LogIdx,
) -> (r: Ordering)
    requires
        forall|c: usize, x: LogIdx, y: LogIdx| compare.requires((c, x, y)),
    ensures
        may_order(*compare, spec.sorts(), a, b, r),
{
    let orders = column_orders(spec, compare, a, b);
    let r = spec.compare_rows(&orders, a, b);
    assert(column_answers(*compare, spec.sorts(), a, b, orders@));
    r
}

/// Putting `x` between two neighbours seen in order on either side keeps
/// every pair of neighbours seen in order.
proof fn lemma_insert_sorted<C: Fn(usize, LogIdx, LogIdx) -> Option<Ordering>>(
    compare: C,
    sorts: Seq<SortSpec>,
    order: Seq<LogIdx>,
    lo: int,
    x: LogIdx,
)
    requires
        sorted_by(compare, sorts, order),
        0 <= lo <= order.len(),
        lo > 0 ==> seen_in_order(compare, sorts, order[lo - 1], x),
        lo < order.len() ==> seen_in_order(compare, sorts, x, order[lo]),
    ensures
        sorted_by(compare, sorts, order.insert(lo, x)),
{
    let n = order.insert(lo, x);
    assert forall|i: int, j: int|
        0 <= i && j == i + 1 && j < n.len() implies #[trigger] seen_in_order(compare, sorts, n[i], n[j]) by {
        if j < lo {
            assert(n[i] == order[i] && n[j] == order[j]);
        } else if j == lo {
            assert(n[i] == order[i] && n[j] == x);
        } else if i == lo {
            assert(n[i] == x && n[j] == order[i]);
        } else {
            assert(n[i] == order[i - 1] && n[j] == order[j - 1]);
            assert(seen_in_order(compare, sorts, order[i - 1], order[j - 1]));
        }
    }
}

/// The display order of `len` rows under the sorts of `spec`, where
/// `compare(idx, a, b)` tells how column `idx` orders the rows at `a` and
/// `b` (`None` where there is no such column or row): with no sorts the data
/// order; otherwise every data position once, neighbours ordered by
/// `RemapSpec::compare_rows` on the column orders found.
pub fn remap_by_sorts<C: Fn(usize, LogIdx, LogIdx) -> Option<Ordering>>(
    len: usize,
    spec: &RemapSpec,
    compare: C,
) -> (r: Remap)
    requires
        forall|c: usize, x: LogIdx, y: LogIdx| compare.requires((c, x, y)),
    ensures
        spec.sorts().len() == 0 ==> r == Remap::Pristine(len),
        spec.sorts().len() > 0 ==> (r matches Remap::Selected(d) && d.wf() && positions_below(
            d.vis_to_log(),
            len,
        ) && sorted_by(compare, spec.sorts(), d.vis_to_log())),
{
    if spec.is_empty() {
        return Remap::Pristine(len);
    }
    let ghost sorts = spec.sorts();
    let mut order: Vec<LogIdx> = Vec::new();
    let mut x: usize = 0;
    while x < len
        invariant
            x <= len,
            sorts == spec.sorts(),
            forall|c: usize, a: LogIdx, b: LogIdx| compare.requires((c, a, b)),
            positions_below(order@, x),
            sorted_by(compare, sorts, order@),
        decreases len - x,
    {
        let item = LogIdx(x);
        let mut lo: usize = 0;
        let mut hi: usize = order.len();
        while lo < hi
            invariant
                lo <= hi <= order@.len(),
                sorts == spec.sorts(),
                forall|c: usize, a: LogIdx, b: LogIdx| compare.requires((c, a, b)),
                lo > 0 ==> seen_in_order(compare, sorts, order@[lo - 1], item),
                hi < order@.len() ==> seen_in_order(compare, sorts, item, item_at(order@, hi)),
            decreases hi - lo,
        {
            let mid = lo + (hi - lo) / 2;
            let o = row_order(spec, &compare, order[mid], item);
            match o {
                Ordering::Greater => {
                    hi = mid;
                },
                _ => {
                    lo = mid + 1;
                },
            }
        }
        proof {
            lemma_insert_sorted(compare, sorts, order@, widened(lo), item);
            let n = order@.insert(widened(lo), item);
            assert forall|i: int| 0 <= i < n.len() implies (#[trigger] n[i]).0 < x + 1 by {
                if i < lo {
                    assert(n[i] == order@[i]);
                } else if i > lo {
                    assert(n[i] == order@[i - 1]);
                }
            }
            assert forall|i: int, j: int| 0 <= i < n.len() && 0 <= j < n.len() && i != j implies n[i] != n[j] by {
                let oi = if i < lo { i } else { i - 1 };
                let oj = if j < lo { j } else { j - 1 };
                if i != lo && j != lo {
                    assert(n[i] == order@[oi] && n[j] == order@[oj]);
                } else if i == lo {
                    assert(n[j] == order@[oj]);
                    assert(order@[oj].0 < x);
                } else {
                    assert(n[i] == order@[oi]);
                    assert(order@[oi].0 < x);
                }
            }
        }
        order.insert(lo, item);
        x = x + 1;
    }
    Remap::Selected(RemapDetails::make_full(order))
}

/// Column orders for the rows one way round that are the reverse of those
/// for the other way round (a missing column missing both ways) give the
/// reverse row order, where the other way round puts the rows in order.
proof fn lemma_sorted_order_flips(
    sorts: Seq<SortSpec>,
    o_ab: Seq<Option<Ordering>>,
    o_ba: Seq<Option<Ordering>>,
    a: usize,
    b: usize,
)
    requires
        o_ab.len() == sorts.len(),
        o_ba.len() == sorts.len(),
        forall|i: int|
            0 <= i < sorts.len() ==> (#[trigger] o_ab[i] == None::<Ordering> <==> o_ba[i] == None::<Ordering>),
        forall|i: int|
            0 <= i < sorts.len() && (#[trigger] o_ba[i]) is Some ==> o_ab[i] == Some(reversed_order(o_ba[i].unwrap())),
        sorted_order(sorts, o_ba, b, a) == Ordering::Greater,
    ensures
        sorted_order(sorts, o_ab, a, b) == Ordering::Less,
    decreases sorts.len(),
{
    if sorts.len() > 0 {
        let t_ab = o_ab.drop_first();
        let t_ba = o_ba.drop_first();
        assert(o_ab[0] == None::<Ordering> <==> o_ba[0] == None::<Ordering>);
        assert forall|i: int|
            0 <= i < sorts.drop_first().len() implies (#[trigger] t_ab[i] == None::<Ordering> <==> t_ba[i]
                == None::<Ordering>) by {
            assert(t_ab[i] == o_ab[i + 1] && t_ba[i] == o_ba[i + 1]);
        }
        assert forall|i: int|
            0 <= i < sorts.drop_first().len() && (#[trigger] t_ba[i]) is Some implies t_ab[i] == Some(
                reversed_order(t_ba[i].unwrap()),
            ) by {
            assert(t_ab[i] == o_ab[i + 1] && t_ba[i] == o_ba[i + 1]);
        }
        if o_ba[0] is Some && o_ba[0].unwrap() == Ordering::Equal {
            lemma_sorted_order_flips(sorts.drop_first(), t_ab, t_ba, a, b);
        }
    }
}

/// Where `compare` gives one answer to each question, and for the rows the
/// other way round the reverse answer (a missing column missing both ways),
/// two rows seen in order are never ordered the other way: every order
/// `compare` may give them puts the first no later than the second.
pub proof fn law_seen_in_order_holds<C: Fn(usize, LogIdx, LogIdx) -> Option<Ordering>>(
    compare: C,
    sorts: Seq<SortSpec>,
    a: LogIdx,
    b: LogIdx,
    orders: Seq<Option<Ordering>>,
)
    requires
        forall|c: usize, x: LogIdx, y: LogIdx, r1: Option<Ordering>, r2: Option<Ordering>|
            #![trigger compare.ensures((c, x, y), r1), compare.ensures((c, x, y), r2)]
            compare.ensures((c, x, y), r1) && compare.ensures((c, x, y), r2) ==> r1 == r2,
        forall|c: usize, x: LogIdx, y: LogIdx, r: Option<Ordering>|
            #[trigger] compare.ensures((c, x, y), r) ==> compare.ensures(
                (c, y, x),
                match r {
                    Some(o) => Some(reversed_order(o)),
                    None => None,
                },
            ),
        seen_in_order(compare, sorts, a, b),
        column_answers(compare, sorts, a, b, orders),
    ensures
        sorted_order(sorts, orders, a.0, b.0) != Ordering::Greater,
{
    if may_order(compare, sorts, a, b, Ordering::Less) || may_order(compare, sorts, a, b, Ordering::Equal) {
        let o1 = choose|o1: Seq<Option<Ordering>>|
            #[trigger] column_answers(compare, sorts, a, b, o1) && (sorted_order(sorts, o1, a.0, b.0)
                == Ordering::Less || sorted_order(sorts, o1, a.0, b.0) == Ordering::Equal);
        assert forall|i: int| 0 <= i < sorts.len() implies o1[i] == orders[i] by {
            assert(compare.ensures((sorts[i].idx, a, b), o1[i]));
            assert(compare.ensures((sorts[i].idx, a, b), orders[i]));
        }
        assert(o1 =~= orders);
    } else {
        let o_ba = choose|o: Seq<Option<Ordering>>|
            #[trigger] column_answers(compare, sorts, b, a, o) && sorted_order(sorts, o, b.0, a.0)
                == Ordering::Greater;
        assert forall|i: int|
            0 <= i < sorts.len() implies (#[trigger] orders[i] == None::<Ordering> <==> o_ba[i] == None::<
                Ordering,
            >) && (o_ba[i] is Some ==> orders[i] == Some(reversed_order(o_ba[i].unwrap()))) by {
            let c = sorts[i].idx;
            assert(compare.ensures((c, b, a), o_ba[i]));
            assert(compare.ensures((c, a, b), orders[i]));
            let back = match orders[i] {
                Some(o) => Some(reversed_order(o)),
                None => None::<Ordering>,
            };
            assert(compare.ensures((c, b, a), back));
            assert(back == o_ba[i]);
            let fwd = match o_ba[i] {
                Some(o) => Some(reversed_order(o)),
                None => None::<Ordering>,
            };
            assert(compare.ensures((c, a, b), fwd));
            assert(fwd == orders[i]);
        }
        lemma_sorted_order_flips(sorts, orders, o_ba, a.0, b.0);
    }
}

/// Orders the rows of some data by the sorts of a `RemapSpec`.
pub trait Remapper<TableData: IndexedData> {
    /// Whether the sorting on column `idx` cannot be changed.
    fn sort_fixed(&self, idx: usize) -> bool;

    /// The sorts to start with.
    fn initial_spec(&self) -> RemapSpec;

    /// The display order of the rows of `table_data` under `remap_spec`.
    fn remap_from_records(&self, table_data: &TableData, remap_spec: &RemapSpec) -> Remap;
}

impl Default for RemapSpec {
    fn default() -> (r: Self)
        ensures
            r.sorts() == Seq::<SortSpec>::empty(),
    {
        RemapSpec { sort_by: sort_vector_new() }
    }
}

} // verus!
