//! The star map: solar systems joined by stargates, and the search for the
//! systems within a number of jumps of a watched system.

use vstd::prelude::*;
use crate::StarId;
use crate::text::str_eq;

verus! {

/// A solar system and the systems its stargates lead to.
#[derive(Debug)]
pub struct StarSystem {
    pub id: StarId,
    pub name: String,
    pub gates: Vec<StarId>,
}

/// A solar system, under its older name.
pub type SolarSystem = StarSystem;

/// The systems of the map, in the order of their ids.
#[derive(Debug)]
pub struct StarMap {
    pub systems: Vec<StarSystem>,
}

/// The first position below `n` whose system has the id `id`.
pub open spec fn id_index_below(s: Seq<StarSystem>, id: StarId, n: int) -> Option<int>
    decreases n,
{
    if n <= 0 {
        None
    } else {
        match id_index_below(s, id, n - 1) {
            Some(i) => Some(i),
            None => if s[n - 1].id == id {
                Some(n - 1)
            } else {
                None
            },
        }
    }
}

/// The first position below `n` whose system has the name `name`.
pub open spec fn name_index_below(s: Seq<StarSystem>, name: Seq<char>, n: int) -> Option<int>
    decreases n,
{
    if n <= 0 {
        None
    } else {
        match name_index_below(s, name, n - 1) {
            Some(i) => Some(i),
            None => if s[n - 1].name@ == name {
                Some(n - 1)
            } else {
                None
            },
        }
    }
}

proof fn lemma_id_index_found(s: Seq<StarSystem>, id: StarId, m: int, n: int, i: int)
    requires
        id_index_below(s, id, m) == Some(i),
        m <= n,
    ensures
        id_index_below(s, id, n) == Some(i),
        0 <= i < m,
        s[i].id == id,
    decreases n - m,
{
    if n > m {
        lemma_id_index_found(s, id, m, n - 1, i);
    } else {
        lemma_id_index_bounds(s, id, m);
    }
}

proof fn lemma_id_index_bounds(s: Seq<StarSystem>, id: StarId, n: int)
    ensures
        id_index_below(s, id, n) matches Some(i) ==> 0 <= i < n && s[i].id == id,
    decreases n,
{
    if n > 0 {
        lemma_id_index_bounds(s, id, n - 1);
    }
}

proof fn lemma_name_index_found(s: Seq<StarSystem>, name: Seq<char>, m: int, n: int, i: int)
    requires
        name_index_below(s, name, m) == Some(i),
        m <= n,
    ensures
        name_index_below(s, name, n) == Some(i),
    decreases n - m,
{
    if n > m {
        lemma_name_index_found(s, name, m, n - 1, i);
    }
}

/// A position found below `n` holds a system with the name.
pub proof fn lemma_name_index_bounds(s: Seq<StarSystem>, name: Seq<char>, n: int)
    ensures
        name_index_below(s, name, n) matches Some(i) ==> 0 <= i < n && s[i].name@ == name,
    decreases n,
{
    if n > 0 {
        lemma_name_index_bounds(s, name, n - 1);
    }
}

impl StarMap {
    /// The position of the first system with the id `id`.
    pub open spec fn index_of(&self, id: StarId) -> Option<int> {
        id_index_below(self.systems@, id, self.systems@.len() as int)
    }

    /// Whether the map holds a system with the id `id`.
    pub open spec fn has(&self, id: StarId) -> bool {
        self.index_of(id) is Some
    }

    /// The first system with the id `id`.
    pub open spec fn system_of(&self, id: StarId) -> StarSystem {
        self.systems@[self.index_of(id)->0]
    }

    /// The gates of the first system with the id `id`, or none when there is none.
    pub open spec fn gates_of(&self, id: StarId) -> Seq<StarId> {
        match self.index_of(id) {
            Some(i) => self.systems@[i].gates@,
            None => seq![],
        }
    }

    /// The position of the first system named `name`.
    pub open spec fn name_index(&self, name: Seq<char>) -> Option<int> {
        name_index_below(self.systems@, name, self.systems@.len() as int)
    }

    /// The first system named `name`, when there is one.
    pub open spec fn named(&self, name: Seq<char>) -> Option<StarSystem> {
        match self.name_index(name) {
            Some(i) => Some(self.systems@[i]),
            None => None,
        }
    }

    /// Every gate of every system leads to a system of the map.
    pub open spec fn wf(&self) -> bool {
        forall|i: int, k: int|
            #![trigger self.systems@[i].gates@[k]]
            0 <= i < self.systems@.len() && 0 <= k < self.systems@[i].gates@.len() ==> self.has(
                self.systems@[i].gates@[k],
            )
    }

    /// Whether every gate of every system leads to a system of the map.
    pub fn is_closed(&self) -> (r: bool)
        ensures
            r == self.wf(),
    {
        let mut i: usize = 0;
        while i < self.systems.len()
            invariant
                i <= self.systems.len(),
                forall|j: int, k: int|
                    #![trigger self.systems@[j].gates@[k]]
                    0 <= j < i && 0 <= k < self.systems@[j].gates@.len() ==> self.has(
                        self.systems@[j].gates@[k],
                    ),
            decreases self.systems.len() - i,
        {
            let gates = &self.systems[i].gates;
            let mut k: usize = 0;
            while k < gates.len()
                invariant
                    i < self.systems.len(),
                    gates@ == self.systems@[i as int].gates@,
                    k <= gates.len(),
                    forall|m: int| 0 <= m < k ==> self.has(#[trigger] gates@[m]),
                decreases gates.len() - k,
            {
                if self.find_index(gates[k]).is_none() {
                    assert(!self.has(self.systems@[i as int].gates@[k as int]));
                    return false;
                }
                k = k + 1;
            }
            i = i + 1;
        }
        true
    }

    /// The position of the first system with the id `id`.
    pub fn find_index(&self, id: StarId) -> (r: Option<usize>)
        ensures
            match r {
                Some(i) => self.index_of(id) == Some(i as int),
                None => self.index_of(id) is None,
            },
    {
        let mut i: usize = 0;
        while i < self.systems.len()
            invariant
                i <= self.systems.len(),
                id_index_below(self.systems@, id, i as int) is None,
            decreases self.systems.len() - i,
        {
            if self.systems[i].id == id {
                proof {
                    lemma_id_index_found(
                        self.systems@,
                        id,
                        i as int + 1,
                        self.systems@.len() as int,
                        i as int,
                    );
                }
                return Some(i);
            }
            i = i + 1;
        }
        None
    }

    /// The position of the first system named `name`.
    pub fn find_name_index(&self, name: &str) -> (r: Option<usize>)
        ensures
            match r {
                Some(i) => self.name_index(name@) == Some(i as int),
                None => self.name_index(name@) is None,
            },
    {
        let mut i: usize = 0;
        while i < self.systems.len()
            invariant
                i <= self.systems.len(),
                name_index_below(self.systems@, name@, i as int) is None,
            decreases self.systems.len() - i,
        {
            if str_eq(self.systems[i].name.as_str(), name) {
                proof {
                    lemma_name_index_found(
                        self.systems@,
                        name@,
                        i as int + 1,
                        self.systems@.len() as int,
                        i as int,
                    );
                }
                return Some(i);
            }
            i = i + 1;
        }
        None
    }

    /// The system with the id `id`; the map must hold one.
    pub fn system(&self, id: &StarId) -> (r: &StarSystem)
        requires
            self.has(*id),
        ensures
            *r == self.system_of(*id),
    {
        let i = self.find_index(*id);
        proof {
            lemma_id_index_bounds(self.systems@, *id, self.systems@.len() as int);
        }
        &self.systems[i.unwrap()]
    }

    /// The system with the id `id`, when the map holds one.
    pub fn get_system(&self, id: StarId) -> (r: Option<&StarSystem>)
        ensures
            match r {
                Some(s) => self.has(id) && *s == self.system_of(id),
                None => !self.has(id),
            },
    {
        match self.find_index(id) {
            Some(i) => {
                proof {
                    lemma_id_index_bounds(self.systems@, id, self.systems@.len() as int);
                }
                Some(&self.systems[i])
            },
            None => None,
        }
    }

    /// The systems with the ids `system_ids`, in that order; the map must hold each.
    pub fn systems(&self, system_ids: Vec<StarId>) -> (r: Vec<&StarSystem>)
        requires
            forall|i: int| 0 <= i < system_ids@.len() ==> self.has(#[trigger] system_ids@[i]),
        ensures
            r@.len() == system_ids@.len(),
            forall|i: int| 0 <= i < r@.len() ==> *#[trigger] r@[i] == self.system_of(system_ids@[i]),
    {
        let mut r: Vec<&StarSystem> = Vec::new();
        let mut i: usize = 0;
        while i < system_ids.len()
            invariant
                i <= system_ids.len(),
                forall|k: int| 0 <= k < system_ids@.len() ==> self.has(#[trigger] system_ids@[k]),
                r@.len() == i,
                forall|k: int| 0 <= k < i ==> *#[trigger] r@[k] == self.system_of(system_ids@[k]),
            decreases system_ids.len() - i,
        {
            let s = self.system(&system_ids[i]);
            r.push(s);
            i = i + 1;
        }
        r
    }

    /// The system named `name`, when the map holds one.
    pub fn get_system_named(&self, name: &str) -> (r: Option<&StarSystem>)
        ensures
            match r {
                Some(s) => self.named(name@) == Some(*s),
                None => self.named(name@) is None,
            },
    {
        match self.find_name_index(name) {
            Some(i) => {
                proof {
                    lemma_name_index_bounds(self.systems@, name@, self.systems@.len() as int);
                }
                Some(&self.systems[i])
            },
            None => None,
        }
    }

    /// The system named `name`; the map must hold one.
    pub fn system_named(&self, name: &str) -> (r: &StarSystem)
        requires
            self.named(name@) is Some,
        ensures
            self.named(name@) == Some(*r),
    {
        let r = self.get_system_named(name);
        r.unwrap()
    }
}

/// Whether `v` holds `x`.
pub fn contains_id(v: &Vec<StarId>, x: StarId) -> (r: bool)
    ensures
        r == v@.contains(x),
{
    let mut i: usize = 0;
    while i < v.len()
        invariant
            i <= v.len(),
            forall|k: int| 0 <= k < i ==> v@[k] != x,
        decreases v.len() - i,
    {
        if v[i] == x {
            assert(v@[i as int] == x);
            return true;
        }
        i = i + 1;
    }
    false
}

/// The gates of `gates` that `range` does not hold yet, in order.
pub open spec fn fresh_gates(gates: Seq<StarId>, range: Seq<StarId>) -> Seq<StarId>
    decreases gates.len(),
{
    if gates.len() == 0 {
        seq![]
    } else if range.contains(gates.last()) {
        fresh_gates(gates.drop_last(), range)
    } else {
        fresh_gates(gates.drop_last(), range).push(gates.last())
    }
}

/// One step of the search: the gates not yet in `range` join it, and while jumps
/// remain the search goes on from each of them in turn.
pub open spec fn next_range(map: StarMap, jumps: nat, gates: Seq<StarId>, range: Seq<StarId>) -> Seq<
    StarId,
>
    decreases jumps, 0nat,
{
    let fresh = fresh_gates(gates, range);
    let extended = range + fresh;
    if jumps <= 1 {
        extended
    } else {
        fold_range(map, (jumps - 1) as nat, fresh, extended)
    }
}

/// The search continued from each system of `ids`, in order.
pub open spec fn fold_range(map: StarMap, jumps: nat, ids: Seq<StarId>, range: Seq<StarId>) -> Seq<
    StarId,
>
    decreases jumps, ids.len() + 1,
{
    if ids.len() == 0 {
        range
    } else {
        fold_range(map, jumps, ids.drop_first(), next_range(map, jumps, map.gates_of(ids[0]), range))
    }
}

/// The ids that `systems_in_range` reports for `jumps` jumps from `from`.
pub open spec fn range_ids(map: StarMap, jumps: nat, from: StarSystem) -> Seq<StarId> {
    if jumps == 0 {
        seq![]
    } else if jumps == 1 {
        from.gates@
    } else {
        fold_range(map, (jumps - 1) as nat, from.gates@, from.gates@)
    }
}

/// Whether `p` is a route of jumps that begins at one of the systems `start` leads to:
/// each further system of `p` is one that the system before it leads to.
pub open spec fn is_route(map: StarMap, start: Seq<StarId>, p: Seq<StarId>) -> bool {
    &&& p.len() >= 1
    &&& start.contains(p[0])
    &&& forall|i: int| #![trigger p[i]] 0 < i < p.len() ==> map.gates_of(p[i - 1]).contains(p[i])
}

/// Whether `to` can be reached in at most `n` jumps from a system whose gates are `start`.
pub open spec fn within(map: StarMap, start: Seq<StarId>, to: StarId, n: nat) -> bool {
    exists|p: Seq<StarId>| #[trigger] is_route(map, start, p) && p.len() <= n && p.last() == to
}

proof fn lemma_fresh_gates_subset(gates: Seq<StarId>, range: Seq<StarId>)
    ensures
        forall|x: StarId| #[trigger] fresh_gates(gates, range).contains(x) ==> gates.contains(x),
    decreases gates.len(),
{
    if gates.len() > 0 {
        lemma_fresh_gates_subset(gates.drop_last(), range);
        assert forall|x: StarId| #[trigger] fresh_gates(gates, range).contains(x) implies gates.contains(
            x,
        ) by {
            if fresh_gates(gates.drop_last(), range).contains(x) {
                assert(gates.drop_last().contains(x));
                let k = choose|k: int| 0 <= k < gates.drop_last().len() && gates.drop_last()[k] == x;
                assert(gates[k] == x);
            } else {
                assert(x == gates.last());
                assert(gates[gates.len() - 1] == x);
            }
        }
    }
}

proof fn lemma_next_range_exists(map: StarMap, jumps: nat, gates: Seq<StarId>, range: Seq<StarId>)
    requires
        map.wf(),
        forall|x: StarId| #[trigger] gates.contains(x) ==> map.has(x),
        forall|x: StarId| #[trigger] range.contains(x) ==> map.has(x),
    ensures
        forall|x: StarId| #[trigger] next_range(map, jumps, gates, range).contains(x) ==> map.has(x),
    decreases jumps, 0nat,
{
    let fresh = fresh_gates(gates, range);
    let extended = range + fresh;
    lemma_fresh_gates_subset(gates, range);
    assert forall|x: StarId| #[trigger] extended.contains(x) implies map.has(x) by {
        let k = choose|k: int| 0 <= k < extended.len() && extended[k] == x;
        if k < range.len() {
            assert(range[k] == x);
            assert(range.contains(x));
        } else {
            assert(fresh[k - range.len()] == x);
            assert(fresh.contains(x));
        }
    }
    if jumps > 1 {
        lemma_fold_range_exists(map, (jumps - 1) as nat, fresh, extended);
        assert(next_range(map, jumps, gates, range) == fold_range(
            map,
            (jumps - 1) as nat,
            fresh,
            extended,
        ));
    } else {
        assert(next_range(map, jumps, gates, range) == extended);
    }
}

proof fn lemma_fold_range_exists(map: StarMap, jumps: nat, ids: Seq<StarId>, range: Seq<StarId>)
    requires
        map.wf(),
        forall|x: StarId| #[trigger] ids.contains(x) ==> map.has(x),
        forall|x: StarId| #[trigger] range.contains(x) ==> map.has(x),
    ensures
        forall|x: StarId| #[trigger] fold_range(map, jumps, ids, range).contains(x) ==> map.has(x),
    decreases jumps, ids.len() + 1,
{
    if ids.len() > 0 {
        let g = map.gates_of(ids[0]);
        assert(ids.contains(ids[0]));
        lemma_gates_exist(map, ids[0]);
        lemma_next_range_exists(map, jumps, g, range);
        let rest = ids.drop_first();
        assert forall|x: StarId| #[trigger] rest.contains(x) implies map.has(x) by {
            let k = choose|k: int| 0 <= k < rest.len() && rest[k] == x;
            assert(ids[k + 1] == x);
            assert(ids.contains(x));
        }
        lemma_fold_range_exists(map, jumps, rest, next_range(map, jumps, g, range));
        assert(fold_range(map, jumps, ids, range) == fold_range(
            map,
            jumps,
            rest,
            next_range(map, jumps, g, range),
        ));
    }
}

proof fn lemma_gates_exist(map: StarMap, id: StarId)
    requires
        map.wf(),
    ensures
        forall|x: StarId| #[trigger] map.gates_of(id).contains(x) ==> map.has(x),
{
    if let Some(i) = map.index_of(id) {
        lemma_id_index_bounds(map.systems@, id, map.systems@.len() as int);
        assert forall|x: StarId| #[trigger] map.gates_of(id).contains(x) implies map.has(x) by {
            let k = choose|k: int| 0 <= k < map.systems@[i].gates@.len() && map.systems@[i].gates@[k] == x;
            assert(map.has(map.systems@[i].gates@[k]));
        }
    }
}


proof fn lemma_next_range_prefix(map: StarMap, jumps: nat, gates: Seq<StarId>, range: Seq<StarId>)
    ensures
        next_range(map, jumps, gates, range).len() >= range.len(),
        next_range(map, jumps, gates, range).subrange(0, range.len() as int) == range,
    decreases jumps, 0nat,
{
    let fresh = fresh_gates(gates, range);
    let extended = range + fresh;
    assert(extended.subrange(0, range.len() as int) =~= range);
    if jumps > 1 {
        lemma_fold_range_prefix(map, (jumps - 1) as nat, fresh, extended);
        let r = fold_range(map, (jumps - 1) as nat, fresh, extended);
        assert(r.subrange(0, range.len() as int) =~= r.subrange(0, extended.len() as int).subrange(
            0,
            range.len() as int,
        ));
        assert(next_range(map, jumps, gates, range) == r);
    } else {
        assert(next_range(map, jumps, gates, range) == extended);
    }
}

proof fn lemma_fold_range_prefix(map: StarMap, jumps: nat, ids: Seq<StarId>, range: Seq<StarId>)
    ensures
        fold_range(map, jumps, ids, range).len() >= range.len(),
        fold_range(map, jumps, ids, range).subrange(0, range.len() as int) == range,
    decreases jumps, ids.len() + 1,
{
    if ids.len() > 0 {
        let g = map.gates_of(ids[0]);
        let next = next_range(map, jumps, g, range);
        lemma_next_range_prefix(map, jumps, g, range);
        lemma_fold_range_prefix(map, jumps, ids.drop_first(), next);
        let r = fold_range(map, jumps, ids.drop_first(), next);
        assert(r.subrange(0, range.len() as int) =~= r.subrange(0, next.len() as int).subrange(
            0,
            range.len() as int,
        ));
        assert(fold_range(map, jumps, ids, range) == r);
    } else {
        assert(range.subrange(0, range.len() as int) =~= range);
    }
}

proof fn lemma_within_mono(map: StarMap, gates: Seq<StarId>, x: StarId, m: nat, n: nat)
    requires
        within(map, gates, x, m),
        m <= n,
    ensures
        within(map, gates, x, n),
{
    let p = choose|p: Seq<StarId>| #[trigger] is_route(map, gates, p) && p.len() <= m && p.last() == x;
    assert(is_route(map, gates, p) && p.len() <= n && p.last() == x);
}

proof fn lemma_within_start(map: StarMap, gates: Seq<StarId>, x: StarId, n: nat)
    requires
        gates.contains(x),
        n >= 1,
    ensures
        within(map, gates, x, n),
{
    let p = seq![x];
    assert(is_route(map, gates, p) && p.len() <= n && p.last() == x);
}

proof fn lemma_within_step(map: StarMap, gates: Seq<StarId>, x: StarId, m: nat, g: StarId)
    requires
        within(map, gates, x, m),
        map.gates_of(x).contains(g),
    ensures
        within(map, gates, g, m + 1),
{
    let p = choose|p: Seq<StarId>| #[trigger] is_route(map, gates, p) && p.len() <= m && p.last() == x;
    let q = p.push(g);
    assert forall|i: int| #![trigger q[i]] 0 < i < q.len() implies map.gates_of(q[i - 1]).contains(
        q[i],
    ) by {
        if i < p.len() {
            assert(q[i] == p[i] && q[i - 1] == p[i - 1]);
        } else {
            assert(q[i - 1] == x && q[i] == g);
        }
    }
    assert(q[0] == p[0]);
    assert(is_route(map, gates, q) && q.len() <= m + 1 && q.last() == g);
}

proof fn lemma_next_range_within(
    map: StarMap,
    start: Seq<StarId>,
    total: nat,
    jumps: nat,
    y: StarId,
    d: nat,
    range: Seq<StarId>,
)
    requires
        within(map, start, y, d),
        jumps >= 1,
        d + jumps <= total,
        forall|x: StarId| #[trigger] range.contains(x) ==> within(map, start, x, total),
    ensures
        forall|x: StarId| #[trigger] next_range(map, jumps, map.gates_of(y), range).contains(x)
            ==> within(map, start, x, total),
    decreases jumps, 0nat,
{
    let gates = map.gates_of(y);
    let fresh = fresh_gates(gates, range);
    let extended = range + fresh;
    lemma_fresh_gates_subset(gates, range);
    assert forall|x: StarId| #[trigger] fresh.contains(x) implies within(map, start, x, d + 1) by {
        lemma_within_step(map, start, y, d, x);
    }
    assert forall|x: StarId| #[trigger] extended.contains(x) implies within(map, start, x, total) by {
        let k = choose|k: int| 0 <= k < extended.len() && extended[k] == x;
        if k < range.len() {
            assert(range[k] == x);
            assert(range.contains(x));
        } else {
            assert(fresh[k - range.len()] == x);
            assert(fresh.contains(x));
            lemma_within_mono(map, start, x, d + 1, total);
        }
    }
    if jumps > 1 {
        lemma_fold_range_within(map, start, total, (jumps - 1) as nat, fresh, d + 1, extended);
        assert(next_range(map, jumps, gates, range) == fold_range(
            map,
            (jumps - 1) as nat,
            fresh,
            extended,
        ));
    } else {
        assert(next_range(map, jumps, gates, range) == extended);
    }
}

proof fn lemma_fold_range_within(
    map: StarMap,
    start: Seq<StarId>,
    total: nat,
    jumps: nat,
    ids: Seq<StarId>,
    d: nat,
    range: Seq<StarId>,
)
    requires
        jumps >= 1,
        d + jumps <= total,
        forall|x: StarId| #[trigger] ids.contains(x) ==> within(map, start, x, d),
        forall|x: StarId| #[trigger] range.contains(x) ==> within(map, start, x, total),
    ensures
        forall|x: StarId| #[trigger] fold_range(map, jumps, ids, range).contains(x) ==> within(
            map,
            start,
            x,
            total,
        ),
    decreases jumps, ids.len() + 1,
{
    if ids.len() > 0 {
        assert(ids.contains(ids[0]));
        lemma_next_range_within(map, start, total, jumps, ids[0], d, range);
        let next = next_range(map, jumps, map.gates_of(ids[0]), range);
        let rest = ids.drop_first();
        assert forall|x: StarId| #[trigger] rest.contains(x) implies within(map, start, x, d) by {
            let k = choose|k: int| 0 <= k < rest.len() && rest[k] == x;
            assert(ids[k + 1] == x);
            assert(ids.contains(x));
        }
        lemma_fold_range_within(map, start, total, jumps, rest, d, next);
        assert(fold_range(map, jumps, ids, range) == fold_range(map, jumps, rest, next));
    }
}

/// Whether no system of the map lists a gate twice.
pub open spec fn gates_distinct(map: StarMap) -> bool {
    forall|i: int| 0 <= i < map.systems@.len() ==> (#[trigger] map.systems@[i]).gates@.no_duplicates()
}

/// The fresh gates are gates that the range does not hold, each once where the
/// gates are.
proof fn lemma_fresh_gates_distinct(gates: Seq<StarId>, range: Seq<StarId>)
    ensures
        forall|x: StarId| #[trigger] fresh_gates(gates, range).contains(x) ==> !range.contains(x),
        gates.no_duplicates() ==> fresh_gates(gates, range).no_duplicates(),
    decreases gates.len(),
{
    if gates.len() > 0 {
        let g = gates.drop_last();
        lemma_fresh_gates_distinct(g, range);
        lemma_fresh_gates_subset(g, range);
        let f = fresh_gates(g, range);
        if !range.contains(gates.last()) {
            let f2 = f.push(gates.last());
            assert forall|x: StarId| #[trigger] f2.contains(x) implies !range.contains(x) by {
                if x != gates.last() {
                    let k = choose|k: int| 0 <= k < f2.len() && f2[k] == x;
                    assert(f[k] == x);
                    assert(f.contains(x));
                }
            }
            if gates.no_duplicates() {
                assert(g.no_duplicates()) by {
                    assert forall|i: int, j: int| 0 <= i < g.len() && 0 <= j < g.len() && i != j implies g[i] != g[j] by {
                        assert(g[i] == gates[i] && g[j] == gates[j]);
                    }
                }
                assert(!f.contains(gates.last())) by {
                    if f.contains(gates.last()) {
                        assert(g.contains(gates.last()));
                        let k = choose|k: int| 0 <= k < g.len() && g[k] == gates.last();
                        assert(gates[k] == gates[gates.len() - 1]);
                    }
                }
                assert forall|i: int, j: int| 0 <= i < f2.len() && 0 <= j < f2.len() && i != j implies f2[i] != f2[j] by {
                    if i < f.len() && j < f.len() {
                        assert(f2[i] == f[i] && f2[j] == f[j]);
                    } else if i < f.len() {
                        assert(f.contains(f2[i]));
                    } else {
                        assert(f.contains(f2[j]));
                    }
                }
            }
        } else {
            if gates.no_duplicates() {
                assert(g.no_duplicates()) by {
                    assert forall|i: int, j: int| 0 <= i < g.len() && 0 <= j < g.len() && i != j implies g[i] != g[j] by {
                        assert(g[i] == gates[i] && g[j] == gates[j]);
                    }
                }
            }
        }
    }
}

/// A range with no system twice, extended by fresh gates, has no system twice.
proof fn lemma_extend_distinct(range: Seq<StarId>, fresh: Seq<StarId>)
    requires
        range.no_duplicates(),
        fresh.no_duplicates(),
        forall|x: StarId| #[trigger] fresh.contains(x) ==> !range.contains(x),
    ensures
        (range + fresh).no_duplicates(),
{
    let e = range + fresh;
    assert forall|i: int, j: int| 0 <= i < e.len() && 0 <= j < e.len() && i != j implies e[i] != e[j] by {
        if i < range.len() && j < range.len() {
        } else if i >= range.len() && j >= range.len() {
            assert(e[i] == fresh[i - range.len()] && e[j] == fresh[j - range.len()]);
        } else if i < range.len() {
            assert(fresh.contains(e[j]));
            assert(range.contains(e[i]));
        } else {
            assert(fresh.contains(e[i]));
            assert(range.contains(e[j]));
        }
    }
}

/// The gates of a system of a map with distinct gates are distinct.
proof fn lemma_gates_of_distinct(map: StarMap, id: StarId)
    requires
        gates_distinct(map),
    ensures
        map.gates_of(id).no_duplicates(),
{
    match map.index_of(id) {
        Some(i) => {
            lemma_id_index_bounds(map.systems@, id, map.systems@.len() as int);
            assert(map.systems@[i].gates@.no_duplicates());
        },
        None => {},
    }
}

/// A step of the search from distinct gates keeps a range without repeats.
proof fn lemma_next_range_distinct(map: StarMap, jumps: nat, gates: Seq<StarId>, range: Seq<StarId>)
    requires
        gates_distinct(map),
        gates.no_duplicates(),
        range.no_duplicates(),
    ensures
        next_range(map, jumps, gates, range).no_duplicates(),
    decreases jumps, 0nat,
{
    let fresh = fresh_gates(gates, range);
    lemma_fresh_gates_distinct(gates, range);
    lemma_extend_distinct(range, fresh);
    if jumps > 1 {
        lemma_fold_range_distinct(map, (jumps - 1) as nat, fresh, range + fresh);
    }
}

/// The search from each of some systems keeps a range without repeats.
proof fn lemma_fold_range_distinct(map: StarMap, jumps: nat, ids: Seq<StarId>, range: Seq<StarId>)
    requires
        gates_distinct(map),
        range.no_duplicates(),
    ensures
        fold_range(map, jumps, ids, range).no_duplicates(),
    decreases jumps, ids.len() + 1,
{
    if ids.len() > 0 {
        lemma_gates_of_distinct(map, ids[0]);
        lemma_next_range_distinct(map, jumps, map.gates_of(ids[0]), range);
        lemma_fold_range_distinct(
            map,
            jumps,
            ids.drop_first(),
            next_range(map, jumps, map.gates_of(ids[0]), range),
        );
    }
}

/// Where no system lists a gate twice, the range search reports each system at
/// most once.
pub proof fn lemma_range_distinct(map: StarMap, jumps: nat, from: StarSystem)
    requires
        gates_distinct(map),
        from.gates@.no_duplicates(),
    ensures
        range_ids(map, jumps, from).no_duplicates(),
{
    if jumps > 1 {
        lemma_fold_range_distinct(map, (jumps - 1) as nat, from.gates@, from.gates@);
    }
}

/// Every system that the range search reports can be reached from the starting
/// system in at most `jumps` jumps.
pub proof fn lemma_range_reachable(map: StarMap, jumps: nat, from: StarSystem, x: StarId)
    requires
        range_ids(map, jumps, from).contains(x),
    ensures
        within(map, from.gates@, x, jumps),
{
    let g = from.gates@;
    if jumps == 1 {
        lemma_within_start(map, g, x, 1);
    } else if jumps > 1 {
        assert forall|y: StarId| #[trigger] g.contains(y) implies within(map, g, y, 1) by {
            lemma_within_start(map, g, y, 1);
        }
        assert forall|y: StarId| #[trigger] g.contains(y) implies within(map, g, y, jumps) by {
            lemma_within_start(map, g, y, jumps);
        }
        lemma_fold_range_within(map, g, jumps, (jumps - 1) as nat, g, 1, g);
    }
}

/// With at least one jump, every system that the starting system's gates lead to
/// is in range, and the reported ranges start with those gates in their order.
pub proof fn lemma_range_has_gates(map: StarMap, jumps: nat, from: StarSystem)
    requires
        jumps >= 1,
    ensures
        range_ids(map, jumps, from).len() >= from.gates@.len(),
        range_ids(map, jumps, from).subrange(0, from.gates@.len() as int) == from.gates@,
{
    if jumps == 1 {
        assert(from.gates@.subrange(0, from.gates@.len() as int) =~= from.gates@);
    } else {
        lemma_fold_range_prefix(map, (jumps - 1) as nat, from.gates@, from.gates@);
    }
}

/// Every system that the range search reports is a system of the map, when the
/// map's gates lead to systems of the map and so do the starting system's.
pub proof fn lemma_range_in_map(map: StarMap, jumps: nat, from: StarSystem)
    requires
        map.wf(),
        forall|x: StarId| #[trigger] from.gates@.contains(x) ==> map.has(x),
    ensures
        forall|x: StarId| #[trigger] range_ids(map, jumps, from).contains(x) ==> map.has(x),
{
    if jumps > 1 {
        lemma_fold_range_exists(map, (jumps - 1) as nat, from.gates@, from.gates@);
    }
}

/// The gates of a system of a map whose gates all lead to systems of the map lead
/// to systems of the map.
pub proof fn lemma_system_of_in_map(map: StarMap, id: StarId)
    requires
        map.wf(),
        map.has(id),
    ensures
        forall|x: StarId| #[trigger] map.system_of(id).gates@.contains(x) ==> map.has(x),
{
    lemma_id_index_bounds(map.systems@, id, map.systems@.len() as int);
    let i = map.index_of(id)->0;
    assert forall|x: StarId| #[trigger] map.system_of(id).gates@.contains(x) implies map.has(x) by {
        let k = choose|k: int|
            0 <= k < map.systems@[i].gates@.len() && map.systems@[i].gates@[k] == x;
        assert(map.has(map.systems@[i].gates@[k]));
    }
}

/// Copies a list of ids.
pub(crate) fn copy_ids(v: &Vec<StarId>) -> (r: Vec<StarId>)
    ensures
        r@ == v@,
{
    let mut r: Vec<StarId> = Vec::new();
    let mut i: usize = 0;
    while i < v.len()
        invariant
            i <= v.len(),
            r@ == v@.take(i as int),
        decreases v.len() - i,
    {
        r.push(v[i]);
        i = i + 1;
        assert(r@ =~= v@.take(i as int));
    }
    assert(v@.take(v.len() as int) =~= v@);
    r
}

/// Finds the systems around a watched system on a star map.
pub struct StarNavigator<'a> {
    pub star_map: &'a StarMap,
}

impl<'a> StarNavigator<'a> {
    /// A navigator over `star_map`.
    pub fn new(star_map: &'a StarMap) -> (r: Self)
        ensures
            r.star_map == star_map,
    {
        StarNavigator { star_map }
    }

    /// The systems within `jumps` jumps of `from_system`, in the order the search
    /// meets them.
    pub fn systems_in_range(&self, jumps: u8, from_system: &StarSystem) -> (r: Vec<&'a StarSystem>)
        requires
            self.star_map.wf(),
            forall|x: StarId| #[trigger] from_system.gates@.contains(x) ==> self.star_map.has(x),
        ensures
            r@.len() == range_ids(*self.star_map, jumps as nat, *from_system).len(),
            forall|i: int|
                0 <= i < r@.len() ==> *#[trigger] r@[i] == self.star_map.system_of(
                    range_ids(*self.star_map, jumps as nat, *from_system)[i],
                ),
    {
        let ghost map = *self.star_map;
        proof {
            lemma_range_in_map(map, jumps as nat, *from_system);
        }
        if jumps == 0 {
            return Vec::new();
        }
        let gate_system_ids = copy_ids(&from_system.gates);
        assert forall|i: int| 0 <= i < gate_system_ids@.len() implies map.has(
            #[trigger] gate_system_ids@[i],
        ) by {
            assert(from_system.gates@.contains(gate_system_ids@[i]));
        }
        if jumps == 1 {
            return self.star_map.systems(gate_system_ids);
        }
        let mut range = copy_ids(&gate_system_ids);
        let ghost gids = gate_system_ids@;
        let mut k: usize = 0;
        assert(gids.skip(0) =~= gids);
        while k < gate_system_ids.len()
            invariant
                map == *self.star_map,
                map.wf(),
                2 <= jumps,
                gids == gate_system_ids@,
                k <= gids.len(),
                forall|i: int| 0 <= i < gids.len() ==> map.has(#[trigger] gids[i]),
                fold_range(map, (jumps - 1) as nat, gids, gids) == fold_range(
                    map,
                    (jumps - 1) as nat,
                    gids.skip(k as int),
                    range@,
                ),
            decreases gids.len() - k,
        {
            let gate_system = self.star_map.system(&gate_system_ids[k]);
            proof {
                lemma_gates_exist(map, gids[k as int]);
                let t = gids.skip(k as int);
                assert(t.drop_first() =~= gids.skip(k + 1));
                assert(t[0] == gids[k as int]);
            }
            range = self.next_jump_range(jumps - 1, gate_system, range);
            k = k + 1;
        }
        assert(gids.skip(k as int) =~= Seq::<StarId>::empty());
        assert(fold_range(map, (jumps - 1) as nat, Seq::<StarId>::empty(), range@) == range@);
        assert(range@ == range_ids(map, jumps as nat, *from_system));
        assert forall|i: int| 0 <= i < range@.len() implies map.has(#[trigger] range@[i]) by {
            assert(range@.contains(range@[i]));
        }
        self.star_map.systems(range)
    }

    fn next_jump_range(&self, jumps: u8, from_system: &StarSystem, range: Vec<StarId>) -> (r: Vec<
        StarId,
    >)
        requires
            self.star_map.wf(),
            jumps >= 1,
            forall|x: StarId| #[trigger] from_system.gates@.contains(x) ==> self.star_map.has(x),
        ensures
            r@ == next_range(*self.star_map, jumps as nat, from_system.gates@, range@),
        decreases jumps,
    {
        let ghost map = *self.star_map;
        let ghost gates = from_system.gates@;
        let mut fresh: Vec<StarId> = Vec::new();
        let mut i: usize = 0;
        assert(gates.take(0) =~= Seq::<StarId>::empty());
        while i < from_system.gates.len()
            invariant
                gates == from_system.gates@,
                i <= gates.len(),
                fresh@ == fresh_gates(gates.take(i as int), range@),
            decreases gates.len() - i,
        {
            let g = from_system.gates[i];
            let ghost t = gates.take(i + 1);
            assert(t.drop_last() =~= gates.take(i as int));
            assert(t.last() == g);
            if !contains_id(&range, g) {
                fresh.push(g);
            }
            i = i + 1;
        }
        assert(gates.take(gates.len() as int) =~= gates);
        let ghost extended = range@ + fresh@;
        let mut range = range;
        let mut j: usize = 0;
        let ghost start = range@;
        while j < fresh.len()
            invariant
                j <= fresh.len(),
                range@ == start + fresh@.take(j as int),
            decreases fresh.len() - j,
        {
            range.push(fresh[j]);
            j = j + 1;
            assert(range@ =~= start + fresh@.take(j as int));
        }
        assert(fresh@.take(fresh.len() as int) =~= fresh@);
        assert(range@ == extended);
        if jumps <= 1 {
            return range;
        }
        proof {
            lemma_fresh_gates_subset(gates, start);
        }
        let mut k: usize = 0;
        assert(fresh@.skip(0) =~= fresh@);
        while k < fresh.len()
            invariant
                map == *self.star_map,
                map.wf(),
                2 <= jumps,
                k <= fresh.len(),
                forall|x: StarId| #[trigger] fresh@.contains(x) ==> gates.contains(x),
                forall|x: StarId| #[trigger] gates.contains(x) ==> map.has(x),
                fold_range(map, (jumps - 1) as nat, fresh@, extended) == fold_range(
                    map,
                    (jumps - 1) as nat,
                    fresh@.skip(k as int),
                    range@,
                ),
            decreases fresh.len() - k,
        {
            proof {
                assert(fresh@.contains(fresh@[k as int]));
                lemma_gates_exist(map, fresh@[k as int]);
                let t = fresh@.skip(k as int);
                assert(t.drop_first() =~= fresh@.skip(k + 1));
                assert(t[0] == fresh@[k as int]);
            }
            let gate_system = self.star_map.system(&fresh[k]);
            range = self.next_jump_range(jumps - 1, gate_system, range);
            k = k + 1;
        }
        assert(fresh@.skip(k as int) =~= Seq::<StarId>::empty());
        range
    }
}


proof fn lemma_fresh_gates_cover(gates: Seq<StarId>, range: Seq<StarId>)
    ensures
        forall|y: StarId| #[trigger] gates.contains(y) ==> (range + fresh_gates(gates, range)).contains(y),
    decreases gates.len(),
{
    if gates.len() > 0 {
        let t = gates.drop_last();
        lemma_fresh_gates_cover(t, range);
        let f = fresh_gates(t, range);
        assert forall|y: StarId| #[trigger] gates.contains(y) implies (range + fresh_gates(gates, range)).contains(y) by {
            let k = choose|k: int| 0 <= k < gates.len() && gates[k] == y;
            let all = range + fresh_gates(gates, range);
            if range.contains(y) {
                let m = choose|m: int| 0 <= m < range.len() && range[m] == y;
                assert(all[m] == y);
            } else if k < t.len() {
                assert(t[k] == y);
                assert(t.contains(y));
                assert((range + f).contains(y));
                let m = choose|m: int| 0 <= m < (range + f).len() && (range + f)[m] == y;
                if !range.contains(gates.last()) {
                    assert(fresh_gates(gates, range) == f.push(gates.last()));
                }
                assert(m >= range.len());
                assert(f[m - range.len()] == y);
                assert(fresh_gates(gates, range)[m - range.len()] == y);
                assert(all[m] == y);
            } else {
                assert(y == gates.last());
                assert(fresh_gates(gates, range) == f.push(gates.last()));
                assert(all[(range.len() + f.len()) as int] == y);
            }
        }
    }
}

proof fn lemma_fold_one_covers(map: StarMap, ids: Seq<StarId>, range: Seq<StarId>)
    ensures
        forall|y: StarId| #[trigger] range.contains(y) ==> fold_range(map, 1, ids, range).contains(y),
        forall|k: int, y: StarId|
            0 <= k < ids.len() && #[trigger] map.gates_of(ids[k]).contains(y) ==> fold_range(map, 1, ids, range).contains(y),
    decreases ids.len(),
{
    if ids.len() > 0 {
        let g = map.gates_of(ids[0]);
        let next = next_range(map, 1, g, range);
        assert(next == range + fresh_gates(g, range));
        lemma_fresh_gates_cover(g, range);
        lemma_fold_one_covers(map, ids.drop_first(), next);
        assert(fold_range(map, 1, ids, range) == fold_range(map, 1, ids.drop_first(), next));
        assert forall|y: StarId| #[trigger] range.contains(y) implies next.contains(y) by {
            let m = choose|m: int| 0 <= m < range.len() && range[m] == y;
            assert(next[m] == y);
        }
        assert forall|k: int, y: StarId|
            0 <= k < ids.len() && #[trigger] map.gates_of(ids[k]).contains(y) implies fold_range(map, 1, ids, range).contains(y) by {
            if k == 0 {
                assert(next.contains(y));
            } else {
                assert(ids.drop_first()[k - 1] == ids[k]);
            }
        }
    }
}

/// The first of the gates `gates` that `seen` does not hold.
pub open spec fn first_unseen(gates: Seq<StarId>, seen: Seq<StarId>) -> Option<StarId>
    decreases gates.len(),
{
    if gates.len() == 0 {
        None
    } else if !seen.contains(gates[0]) {
        Some(gates[0])
    } else {
        first_unseen(gates.drop_first(), seen)
    }
}

/// Whether `p` is the route that a depth-first search takes first from systems
/// whose gates are `gates`, where the systems `seen` have been met already: it
/// goes to the first gate not met yet, and from there on in the same way, each
/// system's gates counting as met once it is reached.
pub open spec fn first_route(map: StarMap, seen: Seq<StarId>, gates: Seq<StarId>, p: Seq<StarId>) -> bool
    decreases p.len(),
{
    p.len() == 0 || (first_unseen(gates, seen) == Some(p[0]) && first_route(
        map,
        seen + gates,
        map.gates_of(p[0]),
        p.drop_first(),
    ))
}

/// The first unseen gate is a gate that is not seen, and every gate before it is
/// seen.
proof fn lemma_first_unseen_at(gates: Seq<StarId>, seen: Seq<StarId>)
    ensures
        first_unseen(gates, seen) matches Some(x) ==> exists|k: int|
            0 <= k < gates.len() && gates[k] == x && !seen.contains(x) && (forall|j: int|
                0 <= j < k ==> seen.contains(#[trigger] gates[j])),
    decreases gates.len(),
{
    if gates.len() > 0 && seen.contains(gates[0]) {
        let t = gates.drop_first();
        lemma_first_unseen_at(t, seen);
        if first_unseen(t, seen) is Some {
            let x = first_unseen(t, seen)->0;
            let k = choose|k: int|
                0 <= k < t.len() && t[k] == x && !seen.contains(x) && (forall|j: int|
                    0 <= j < k ==> seen.contains(#[trigger] t[j]));
            assert(gates[k + 1] == x);
            assert forall|j: int| 0 <= j < k + 1 implies seen.contains(#[trigger] gates[j]) by {
                if j > 0 {
                    assert(gates[j] == t[j - 1]);
                }
            }
        }
    }
}

/// Where every gate is seen, none is fresh.
proof fn lemma_fresh_gates_none(gates: Seq<StarId>, range: Seq<StarId>)
    requires
        forall|j: int| 0 <= j < gates.len() ==> range.contains(#[trigger] gates[j]),
    ensures
        fresh_gates(gates, range).len() == 0,
    decreases gates.len(),
{
    if gates.len() > 0 {
        let t = gates.drop_last();
        assert forall|j: int| 0 <= j < t.len() implies range.contains(#[trigger] t[j]) by {
            assert(t[j] == gates[j]);
        }
        lemma_fresh_gates_none(t, range);
        assert(range.contains(gates[gates.len() - 1]));
    }
}

/// The first fresh gate is the first gate at `k` that the range does not hold,
/// where every gate before it is held.
proof fn lemma_fresh_gates_first(gates: Seq<StarId>, range: Seq<StarId>, k: int)
    requires
        0 <= k < gates.len(),
        !range.contains(gates[k]),
        forall|j: int| 0 <= j < k ==> range.contains(#[trigger] gates[j]),
    ensures
        fresh_gates(gates, range).len() > 0,
        fresh_gates(gates, range)[0] == gates[k],
    decreases gates.len(),
{
    let t = gates.drop_last();
    if k < t.len() {
        assert(t[k] == gates[k]);
        assert forall|j: int| 0 <= j < k implies range.contains(#[trigger] t[j]) by {
            assert(t[j] == gates[j]);
        }
        lemma_fresh_gates_first(t, range, k);
    } else {
        assert forall|j: int| 0 <= j < t.len() implies range.contains(#[trigger] t[j]) by {
            assert(t[j] == gates[j]);
        }
        lemma_fresh_gates_none(t, range);
        assert(gates.last() == gates[k]);
    }
}

/// The first unseen gate is the first fresh one.
proof fn lemma_first_unseen_fresh(gates: Seq<StarId>, range: Seq<StarId>)
    requires
        first_unseen(gates, range) is Some,
    ensures
        fresh_gates(gates, range).len() > 0,
        fresh_gates(gates, range)[0] == first_unseen(gates, range)->0,
{
    lemma_first_unseen_at(gates, range);
    let x = first_unseen(gates, range)->0;
    let k = choose|k: int|
        0 <= k < gates.len() && gates[k] == x && !range.contains(x) && (forall|j: int|
            0 <= j < k ==> range.contains(#[trigger] gates[j]));
    lemma_fresh_gates_first(gates, range, k);
}

/// Sets of met systems that hold the same systems give the same first unseen gate.
proof fn lemma_first_unseen_same(gates: Seq<StarId>, s1: Seq<StarId>, s2: Seq<StarId>)
    requires
        forall|x: StarId| s1.contains(x) <==> s2.contains(x),
    ensures
        first_unseen(gates, s1) == first_unseen(gates, s2),
    decreases gates.len(),
{
    if gates.len() > 0 {
        lemma_first_unseen_same(gates.drop_first(), s1, s2);
    }
}

/// What is held by `a + b`.
proof fn lemma_concat_contains(a: Seq<StarId>, b: Seq<StarId>)
    ensures
        forall|x: StarId| #[trigger] (a + b).contains(x) <==> a.contains(x) || b.contains(x),
{
    assert forall|x: StarId| #[trigger] (a + b).contains(x) <==> a.contains(x) || b.contains(x) by {
        if (a + b).contains(x) {
            let k = choose|k: int| 0 <= k < (a + b).len() && (a + b)[k] == x;
            if k < a.len() {
                assert(a[k] == x);
            } else {
                assert(b[k - a.len()] == x);
            }
        }
        if a.contains(x) {
            let k = choose|k: int| 0 <= k < a.len() && a[k] == x;
            assert((a + b)[k] == x);
        }
        if b.contains(x) {
            let k = choose|k: int| 0 <= k < b.len() && b[k] == x;
            assert((a + b)[k + a.len()] == x);
        }
    }
}

/// Sets of met systems that hold the same systems give the same first route.
proof fn lemma_first_route_same(map: StarMap, s1: Seq<StarId>, s2: Seq<StarId>, gates: Seq<StarId>, p: Seq<StarId>)
    requires
        forall|x: StarId| s1.contains(x) <==> s2.contains(x),
        first_route(map, s1, gates, p),
    ensures
        first_route(map, s2, gates, p),
    decreases p.len(),
{
    if p.len() > 0 {
        lemma_first_unseen_same(gates, s1, s2);
        lemma_concat_contains(s1, gates);
        lemma_concat_contains(s2, gates);
        lemma_first_route_same(map, s1 + gates, s2 + gates, map.gates_of(p[0]), p.drop_first());
    }
}

/// What a sequence starts with, it holds.
proof fn lemma_prefix_contains(a: Seq<StarId>, b: Seq<StarId>)
    requires
        b.len() >= a.len(),
        b.subrange(0, a.len() as int) == a,
    ensures
        forall|x: StarId| a.contains(x) ==> #[trigger] b.contains(x),
{
    assert forall|x: StarId| a.contains(x) implies #[trigger] b.contains(x) by {
        let k = choose|k: int| 0 <= k < a.len() && a[k] == x;
        assert(b.subrange(0, a.len() as int)[k] == b[k]);
    }
}

/// A step of the search goes down the first route as deep as its jumps allow.
proof fn lemma_next_range_follows(map: StarMap, j: nat, gates: Seq<StarId>, range: Seq<StarId>, p: Seq<StarId>)
    requires
        1 <= j,
        p.len() <= j,
        first_route(map, range, gates, p),
    ensures
        forall|i: int| 0 <= i < p.len() ==> next_range(map, j, gates, range).contains(#[trigger] p[i]),
    decreases j,
{
    if p.len() > 0 {
        let fresh = fresh_gates(gates, range);
        let extended = range + fresh;
        lemma_first_unseen_fresh(gates, range);
        assert(extended[range.len() as int] == p[0]);
        assert(extended.contains(p[0]));
        if j <= 1 {
            assert(next_range(map, j, gates, range) == extended);
        } else {
            let rest = p.drop_first();
            lemma_fresh_gates_subset(gates, range);
            lemma_fresh_gates_cover(gates, range);
            lemma_concat_contains(range, gates);
            lemma_concat_contains(range, fresh);
            lemma_first_route_same(map, range + gates, extended, map.gates_of(p[0]), rest);
            lemma_next_range_follows(map, (j - 1) as nat, map.gates_of(p[0]), extended, rest);
            let inner = next_range(map, (j - 1) as nat, map.gates_of(p[0]), extended);
            lemma_next_range_prefix(map, (j - 1) as nat, map.gates_of(p[0]), extended);
            lemma_prefix_contains(extended, inner);
            lemma_fold_range_prefix(map, (j - 1) as nat, fresh.drop_first(), inner);
            let r = fold_range(map, (j - 1) as nat, fresh.drop_first(), inner);
            lemma_prefix_contains(inner, r);
            assert(fresh[0] == p[0]);
            assert(fold_range(map, (j - 1) as nat, fresh, extended) == r);
            assert(next_range(map, j, gates, range) == r);
            assert forall|i: int| 0 <= i < p.len() implies r.contains(#[trigger] p[i]) by {
                if i == 0 {
                    assert(inner.contains(p[0]));
                } else {
                    assert(rest[i - 1] == p[i]);
                    assert(inner.contains(rest[i - 1]));
                }
            }
        }
    }
}

/// The range search is depth-first: along the route it takes first (to the first
/// gate, and from each system on to its first gate not met yet) it goes as deep
/// as the jumps allow, so every system of that route within `jumps` jumps is
/// reported, however many jumps that is.
pub proof fn lemma_range_follows_first_route(map: StarMap, jumps: nat, from: StarSystem, p: Seq<StarId>)
    requires
        p.len() <= jumps,
        first_route(map, Seq::<StarId>::empty(), from.gates@, p),
    ensures
        forall|i: int| 0 <= i < p.len() ==> range_ids(map, jumps, from).contains(#[trigger] p[i]),
{
    let g = from.gates@;
    if p.len() > 0 {
        lemma_first_unseen_at(g, Seq::<StarId>::empty());
        let k = choose|k: int|
            0 <= k < g.len() && g[k] == p[0] && !Seq::<StarId>::empty().contains(p[0]) && (forall|
                j: int,
            | 0 <= j < k ==> Seq::<StarId>::empty().contains(#[trigger] g[j]));
        if k > 0 {
            assert(Seq::<StarId>::empty().contains(g[0]));
        }
        assert(g[0] == p[0]);
        if jumps == 1 {
            assert(g.contains(p[0]));
        } else {
            let rest = p.drop_first();
            assert(Seq::<StarId>::empty() + g =~= g);
            lemma_next_range_follows(map, (jumps - 1) as nat, map.gates_of(p[0]), g, rest);
            let inner = next_range(map, (jumps - 1) as nat, map.gates_of(g[0]), g);
            lemma_next_range_prefix(map, (jumps - 1) as nat, map.gates_of(g[0]), g);
            lemma_prefix_contains(g, inner);
            lemma_fold_range_prefix(map, (jumps - 1) as nat, g.drop_first(), inner);
            let r = fold_range(map, (jumps - 1) as nat, g.drop_first(), inner);
            lemma_prefix_contains(inner, r);
            assert(range_ids(map, jumps, from) == r);
            assert(g.contains(p[0]));
            assert forall|i: int| 0 <= i < p.len() implies r.contains(#[trigger] p[i]) by {
                if i == 0 {
                    assert(inner.contains(p[0]));
                } else {
                    assert(rest[i - 1] == p[i]);
                    assert(inner.contains(rest[i - 1]));
                }
            }
        }
    }
}

/// With one or two jumps, the range search is complete: every system that can be
/// reached from the starting system in at most that many jumps is reported. (With
/// more jumps a system first met by a longer route is not searched from again, so
/// a system reached through it by a shorter route can be missed.)
pub proof fn lemma_range_complete_within_two(map: StarMap, jumps: nat, from: StarSystem, x: StarId)
    requires
        1 <= jumps <= 2,
        within(map, from.gates@, x, jumps),
    ensures
        range_ids(map, jumps, from).contains(x),
{
    let g = from.gates@;
    let p = choose|p: Seq<StarId>| #[trigger] is_route(map, g, p) && p.len() <= jumps && p.last() == x;
    if jumps == 1 {
        assert(p.len() == 1);
        assert(g.contains(p[0]));
    } else {
        lemma_fold_one_covers(map, g, g);
        assert(range_ids(map, 2, from) == fold_range(map, 1, g, g));
        if p.len() == 1 {
            assert(g.contains(x));
        } else {
            assert(p.len() == 2);
            assert(map.gates_of(p[0]).contains(p[1]));
            let k = choose|k: int| 0 <= k < g.len() && g[k] == p[0];
            assert(map.gates_of(g[k]).contains(x));
        }
    }
}

} // verus!
