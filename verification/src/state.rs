//! The state store: every egg that the supervisor knows, by name.

use vstd::prelude::*;
use crate::egg::{Egg, EggStatus, EggView, EggStateView};
use crate::text::{concat, lemma_lex_lt_irreflexive, lemma_lex_lt_total, lemma_lex_lt_transitive,
    lex_lt, parse_decimal, parse_unsigned, str_eq, str_lt, u64_to_string, decimal};

verus! {

/// The values of a run of eggs.
pub open spec fn views(eggs: Seq<Egg>) -> Seq<EggView> {
    eggs.map_values(|e: Egg| e@)
}

/// The eggs stand in ascending order of their names, so no name occurs twice.
pub open spec fn names_ascend(s: Seq<EggView>) -> bool {
    forall|i: int, j: int| 0 <= i < j < s.len() ==> lex_lt(#[trigger] s[i].name, #[trigger] s[j].name)
}

/// Every egg has an id, and no two eggs share one.
pub open spec fn ids_distinct(s: Seq<EggView>) -> bool {
    &&& forall|i: int| 0 <= i < s.len() ==> (#[trigger] s[i].id) is Some
    &&& forall|i: int, j: int| 0 <= i < j < s.len() ==> #[trigger] s[i].id != #[trigger] s[j].id
}

/// What holds of the eggs of a store at all times.
pub open spec fn store_wf(s: Seq<EggView>) -> bool {
    names_ascend(s) && ids_distinct(s)
}

/// Whether an egg of that name is among `s`.
pub open spec fn contains_name(s: Seq<EggView>, name: Seq<char>) -> bool {
    exists|i: int| 0 <= i < s.len() && #[trigger] s[i].name == name
}

/// The position of the first egg that satisfies `p`.
pub open spec fn first_where(s: Seq<EggView>, p: spec_fn(EggView) -> bool) -> Option<int>
    decreases s.len(),
{
    if s.len() == 0 {
        None
    } else if p(s[0]) {
        Some(0)
    } else {
        match first_where(s.drop_first(), p) {
            Some(i) => Some(i + 1),
            None => None,
        }
    }
}

/// The position of the first egg with the given id.
pub open spec fn index_of_id(s: Seq<EggView>, id: usize) -> Option<int> {
    first_where(s, |e: EggView| e.id == Some(id))
}

/// The position of the first egg that has a state with the given process id.
pub open spec fn index_of_pid(s: Seq<EggView>, pid: u32) -> Option<int> {
    first_where(s, |e: EggView| e.state matches Some(st) && st.pid == pid)
}

/// The position of the first egg with the given name.
pub open spec fn index_of_name(s: Seq<EggView>, name: Seq<char>) -> Option<int> {
    first_where(s, |e: EggView| e.name == name)
}

/// What `first_where` finds is the first position at which `p` holds.
pub proof fn lemma_first_where(s: Seq<EggView>, p: spec_fn(EggView) -> bool)
    ensures
        match first_where(s, p) {
            Some(i) => 0 <= i < s.len() && p(s[i]) && forall|j: int| 0 <= j < i ==> !p(#[trigger] s[j]),
            None => forall|j: int| 0 <= j < s.len() ==> !p(#[trigger] s[j]),
        },
    decreases s.len(),
{
    if s.len() > 0 && !p(s[0]) {
        let rest = s.drop_first();
        lemma_first_where(rest, p);
        match first_where(rest, p) {
            Some(i) => {
                assert(rest[i] == s[i + 1]);
                assert forall|j: int| 0 <= j < i + 1 implies !p(#[trigger] s[j]) by {
                    if j > 0 {
                        assert(rest[j - 1] == s[j]);
                    }
                }
            },
            None => {
                assert forall|j: int| 0 <= j < s.len() implies !p(#[trigger] s[j]) by {
                    if j > 0 {
                        assert(rest[j - 1] == s[j]);
                    }
                }
            },
        }
    }
}

/// A position at which `p` holds, with none before it, is what
/// `first_where` finds.
pub proof fn lemma_first_where_is(s: Seq<EggView>, p: spec_fn(EggView) -> bool, i: int)
    requires
        0 <= i < s.len(),
        p(s[i]),
        forall|j: int| 0 <= j < i ==> !p(#[trigger] s[j]),
    ensures
        first_where(s, p) == Some(i),
{
    lemma_first_where(s, p);
}

/// The largest id among the eggs, zero where none has one.
pub open spec fn max_id(s: Seq<EggView>) -> nat
    decreases s.len(),
{
    if s.len() == 0 {
        0
    } else {
        let rest = max_id(s.drop_last());
        let last: nat = match s.last().id {
            Some(id) => id as nat,
            None => 0,
        };
        if last > rest {
            last
        } else {
            rest
        }
    }
}

/// No egg's id is above `max_id`.
pub proof fn lemma_max_id_bounds(s: Seq<EggView>, i: int)
    requires
        0 <= i < s.len(),
    ensures
        s[i].id matches Some(id) ==> id <= max_id(s),
    decreases s.len(),
{
    if i < s.len() - 1 {
        lemma_max_id_bounds(s.drop_last(), i);
    }
}

/// Where a new egg of the given name goes among eggs in ascending order:
/// behind every egg whose name comes before it.
pub open spec fn insertion_point(s: Seq<EggView>, name: Seq<char>) -> int
    decreases s.len(),
{
    if s.len() == 0 {
        0
    } else if lex_lt(s.last().name, name) {
        s.len() as int
    } else {
        insertion_point(s.drop_last(), name)
    }
}

/// Among eggs in ascending order, the insertion point is the one position
/// with only smaller names before it and no smaller name at it.
pub proof fn lemma_insertion_point(s: Seq<EggView>, name: Seq<char>, p: int)
    requires
        names_ascend(s),
        0 <= p <= s.len(),
        forall|i: int| 0 <= i < p ==> lex_lt(#[trigger] s[i].name, name),
        p < s.len() ==> !lex_lt(s[p].name, name),
    ensures
        insertion_point(s, name) == p,
    decreases s.len(),
{
    if s.len() > 0 {
        let last = s.len() - 1;
        if lex_lt(s.last().name, name) {
            if p < s.len() {
                if p < last {
                    assert(lex_lt(s[p].name, s[last].name));
                    lemma_lex_lt_transitive(s[p].name, s[last].name, name);
                }
            }
        } else {
            assert(p <= last) by {
                if p == s.len() {
                    assert(lex_lt(s[last].name, name));
                }
            }
            let front = s.drop_last();
            assert(names_ascend(front)) by {
                assert forall|i: int, j: int| 0 <= i < j < front.len() implies lex_lt(
                    #[trigger] front[i].name,
                    #[trigger] front[j].name,
                ) by {
                    assert(lex_lt(s[i].name, s[j].name));
                }
            }
            assert forall|i: int| 0 <= i < p implies lex_lt(#[trigger] front[i].name, name) by {
                assert(lex_lt(s[i].name, name));
            }
            lemma_insertion_point(front, name, p);
        }
    }
}

/// Among eggs in ascending order, a name is taken exactly where the egg at
/// its insertion point bears it.
pub proof fn lemma_name_at_insertion_point(s: Seq<EggView>, name: Seq<char>, p: int)
    requires
        names_ascend(s),
        0 <= p <= s.len(),
        forall|i: int| 0 <= i < p ==> lex_lt(#[trigger] s[i].name, name),
        p < s.len() ==> !lex_lt(s[p].name, name),
    ensures
        contains_name(s, name) <==> (p < s.len() && s[p].name == name),
        !contains_name(s, name) ==> forall|i: int| p <= i < s.len() ==> lex_lt(name, #[trigger] s[i].name),
        contains_name(s, name) ==> index_of_name(s, name) == Some(p),
{
    if p < s.len() && s[p].name == name {
        assert forall|j: int| 0 <= j < p implies s[j].name != name by {
            assert(lex_lt(s[j].name, name));
            lemma_lex_lt_irreflexive(name);
        }
        lemma_first_where_is(s, |e: EggView| e.name == name, p);
    } else {
        assert forall|i: int| p <= i < s.len() implies lex_lt(name, #[trigger] s[i].name) by {
            lemma_lex_lt_total(s[p].name, name);
            if i > p {
                assert(lex_lt(s[p].name, s[i].name));
                lemma_lex_lt_transitive(name, s[p].name, s[i].name);
            }
        }
        assert(!contains_name(s, name)) by {
            assert forall|i: int| 0 <= i < s.len() implies #[trigger] s[i].name != name by {
                lemma_lex_lt_irreflexive(name);
                if i < p {
                    assert(lex_lt(s[i].name, name));
                } else {
                    assert(lex_lt(name, s[i].name));
                }
            }
        }
    }
}

/// The first position in `eggs` whose name does not come before `name`.
fn slot_for_name(eggs: &Vec<Egg>, name: &str) -> (p: usize)
    ensures
        p <= eggs@.len(),
        forall|i: int| 0 <= i < p ==> lex_lt(#[trigger] views(eggs@)[i].name, name@),
        p < eggs@.len() ==> !lex_lt(views(eggs@)[p as int].name, name@),
{
    let mut p: usize = 0;
    while p < eggs.len()
        invariant
            p <= eggs@.len(),
            forall|i: int| 0 <= i < p ==> lex_lt(#[trigger] views(eggs@)[i].name, name@),
        decreases eggs@.len() - p,
    {
        assert(views(eggs@)[p as int].name == eggs@[p as int].name@);
        if !str_lt(eggs[p].name.as_str(), name) {
            return p;
        }
        p += 1;
    }
    p
}

/// Why the store refused something.
#[derive(Debug)]
pub enum StoreError {
    /// An egg of that name is in the store already.
    NameTaken { name: String },
    /// No egg has that id.
    NotFound { id: usize },
    /// The egg still has a process.
    StillRunning { name: String, pid: u32 },
    /// No id is left to give.
    IdsExhausted,
}

impl StoreError {
    /// What the error says, in words.
    pub open spec fn text(self) -> Seq<char> {
        match self {
            StoreError::NameTaken { name } => "An egg with name "@ + name@ + " already exists"@,
            StoreError::NotFound { id } => "Egg with id '"@ + decimal(id as nat) + "' not found"@,
            StoreError::StillRunning { name, pid } => "Egg '"@ + name@ + "' is still running with pid "@
                + decimal(pid as nat) + ", please stop it first"@,
            StoreError::IdsExhausted => "no id is left for a new egg"@,
        }
    }

    /// The error as a sentence for the log or the operator.
    pub fn message(&self) -> (r: String)
        ensures
            r@ == self.text(),
    {
        match self {
            StoreError::NameTaken { name } => {
                let a = concat("An egg with name ", name.as_str());
                concat(a.as_str(), " already exists")
            },
            StoreError::NotFound { id } => {
                let n = u64_to_string(*id as u64);
                let a = concat("Egg with id '", n.as_str());
                concat(a.as_str(), "' not found")
            },
            StoreError::StillRunning { name, pid } => {
                let n = u64_to_string(*pid as u64);
                let a = concat("Egg '", name.as_str());
                let b = concat(a.as_str(), "' is still running with pid ");
                let c = concat(b.as_str(), n.as_str());
                concat(c.as_str(), ", please stop it first")
            },
            StoreError::IdsExhausted => "no id is left for a new egg".to_string(),
        }
    }
}

/// The state of the supervisor: its eggs, in ascending order of their
/// names. The view is the sequence of the eggs' values in that order.
#[derive(Debug)]
pub struct KurvState {
    eggs: Vec<Egg>,
}

impl View for KurvState {
    type V = Seq<EggView>;

    closed spec fn view(&self) -> Seq<EggView> {
        views(self.eggs@)
    }
}

/// What `collect` makes of a store and an egg: the new eggs and the id
/// given, or the old eggs and no id where the name is taken or no id is
/// left.
pub open spec fn collected(s: Seq<EggView>, e: EggView) -> (Seq<EggView>, Option<usize>) {
    if contains_name(s, e.name) || max_id(s) >= usize::MAX {
        (s, None)
    } else {
        let id = (max_id(s) + 1) as usize;
        (s.insert(insertion_point(s, e.name), EggView { id: Some(id), ..e }), Some(id))
    }
}

/// The id that a token of an operator stands for: the egg with that id
/// where the token is a number and such an egg exists; else the first egg
/// with that process id where the token is a number; else the egg of that
/// name.
pub open spec fn resolve_token(s: Seq<EggView>, token: Seq<char>) -> Option<usize> {
    let as_id = match parse_unsigned(token, usize::MAX as nat) {
        Some(n) => index_of_id(s, n as usize),
        None => None,
    };
    let as_pid = match parse_unsigned(token, u32::MAX as nat) {
        Some(n) => index_of_pid(s, n as u32),
        None => None,
    };
    if as_id is Some {
        s[as_id->0].id
    } else if as_pid is Some {
        s[as_pid->0].id
    } else {
        match index_of_name(s, token) {
            Some(i) => s[i].id,
            None => None,
        }
    }
}

impl KurvState {
    /// Whether the store is in order: names ascend, every egg has an id of
    /// its own.
    pub open spec fn wf(&self) -> bool {
        store_wf(self@)
    }

    /// Says whether the store is in order. It is, as long as no egg was
    /// given another name or id through `get_mut` or `egg_at_mut`.
    pub fn is_wf(&self) -> (r: bool)
        ensures
            r == self.wf(),
    {
        let n = self.eggs.len();
        let mut i: usize = 0;
        while i < n
            invariant
                i <= n,
                n == self@.len(),
                forall|a: int| 0 <= a < i ==> (#[trigger] self@[a].id) is Some,
                forall|a: int, b: int| 0 <= a < b < i ==> #[trigger] self@[a].id != #[trigger] self@[b].id,
                forall|a: int| 0 < a < i ==> lex_lt(self@[a - 1].name, #[trigger] self@[a].name),
            decreases n - i,
        {
            let id = match self.eggs[i].id {
                Some(id) => id,
                None => {
                    return false;
                },
            };
            if i > 0 {
                assert(self@[i - 1].name == self.eggs@[i - 1].name@);
                assert(self@[i as int].name == self.eggs@[i as int].name@);
                if !str_lt(self.eggs[i - 1].name.as_str(), self.eggs[i].name.as_str()) {
                    return false;
                }
            }
            let mut k: usize = 0;
            while k < i
                invariant
                    k <= i < n,
                    n == self@.len(),
                    self@[i as int].id == Some(id),
                    forall|a: int| 0 <= a < k ==> #[trigger] self@[a].id != Some(id),
                decreases i - k,
            {
                let same = match self.eggs[k].id {
                    Some(other) => other == id,
                    None => false,
                };
                if same {
                    assert(self@[k as int].id == self@[i as int].id);
                    return false;
                }
                k += 1;
            }
            i += 1;
        }
        proof {
            lemma_adjacent_ascend(self@);
        }
        true
    }

    /// A store without eggs.
    pub fn new() -> (r: KurvState)
        ensures
            r.wf(),
            r@ == Seq::<EggView>::empty(),
    {
        let r = KurvState { eggs: Vec::new() };
        assert(r@ =~= Seq::<EggView>::empty());
        r
    }

    /// The number of eggs.
    pub fn len(&self) -> (n: usize)
        ensures
            n == self@.len(),
    {
        self.eggs.len()
    }

    /// Whether the store has no egg.
    pub fn is_empty(&self) -> (r: bool)
        ensures
            r == (self@.len() == 0),
    {
        self.eggs.len() == 0
    }

    /// The egg at position `i` in ascending order of names.
    pub fn egg_at(&self, i: usize) -> (r: &Egg)
        requires
            i < self@.len(),
        ensures
            r@ == self@[i as int],
    {
        &self.eggs[i]
    }

    fn position_of_name(&self, name: &str) -> (r: Option<usize>)
        requires
            self.wf(),
        ensures
            match r {
                Some(i) => i < self@.len() && index_of_name(self@, name@) == Some(i as int)
                    && self@[i as int].name == name@,
                None => index_of_name(self@, name@) is None && !contains_name(self@, name@),
            },
    {
        let p = slot_for_name(&self.eggs, name);
        proof {
            lemma_name_at_insertion_point(self@, name@, p as int);
            lemma_first_where(self@, |e: EggView| e.name == name@);
        }
        if p < self.eggs.len() && str_eq(self.eggs[p].name.as_str(), name) {
            Some(p)
        } else {
            None
        }
    }

    fn position_of_id(&self, id: usize) -> (r: Option<usize>)
        ensures
            match r {
                Some(i) => i < self@.len() && index_of_id(self@, id) == Some(i as int)
                    && self@[i as int].id == Some(id),
                None => index_of_id(self@, id) is None,
            },
    {
        let mut i: usize = 0;
        while i < self.eggs.len()
            invariant
                i <= self.eggs@.len(),
                forall|j: int| 0 <= j < i ==> (#[trigger] self@[j]).id != Some(id),
            decreases self.eggs@.len() - i,
        {
            let hit = match self.eggs[i].id {
                Some(x) => x == id,
                None => false,
            };
            if hit {
                proof {
                    lemma_first_where_is(self@, |e: EggView| e.id == Some(id), i as int);
                }
                return Some(i);
            }
            i += 1;
        }
        proof {
            lemma_first_where(self@, |e: EggView| e.id == Some(id));
        }
        None
    }

    fn position_of_pid(&self, pid: u32) -> (r: Option<usize>)
        ensures
            match r {
                Some(i) => i < self@.len() && index_of_pid(self@, pid) == Some(i as int),
                None => index_of_pid(self@, pid) is None,
            },
    {
        let mut i: usize = 0;
        while i < self.eggs.len()
            invariant
                i <= self.eggs@.len(),
                forall|j: int| 0 <= j < i ==> !((#[trigger] self@[j]).state matches Some(st) && st.pid == pid),
            decreases self.eggs@.len() - i,
        {
            let hit = match &self.eggs[i].state {
                Some(st) => st.pid == pid,
                None => false,
            };
            if hit {
                proof {
                    lemma_first_where_is(
                        self@,
                        |e: EggView| e.state matches Some(st) && st.pid == pid,
                        i as int,
                    );
                }
                return Some(i);
            }
            i += 1;
        }
        proof {
            lemma_first_where(self@, |e: EggView| e.state matches Some(st) && st.pid == pid);
        }
        None
    }

    fn largest_id(&self) -> (m: usize)
        ensures
            m == max_id(self@),
    {
        let mut m: usize = 0;
        let mut i: usize = 0;
        proof {
            assert(self@.take(0) =~= Seq::<EggView>::empty());
        }
        while i < self.eggs.len()
            invariant
                i <= self.eggs@.len(),
                m == max_id(self@.take(i as int)),
            decreases self.eggs@.len() - i,
        {
            let v: usize = match self.eggs[i].id {
                Some(id) => id,
                None => 0,
            };
            proof {
                assert(self@.take(i + 1).drop_last() =~= self@.take(i as int));
                assert(self@.take(i + 1).last() == self@[i as int]);
            }
            if v > m {
                m = v;
            }
            i += 1;
        }
        proof {
            assert(self@.take(self@.len() as int) =~= self@);
        }
        m
    }

    /// Takes a copy of `egg` into the store under the next id, which is one
    /// above the largest id in the store, and returns that id. The egg is
    /// refused, and the store left as it was, where its name is taken or
    /// no id is left.
    pub fn collect(&mut self, egg: &Egg) -> (r: Result<usize, StoreError>)
        requires
            old(self).wf(),
        ensures
            final(self).wf(),
            (final(self)@, r.ok()) == collected(old(self)@, egg@),
            match r {
                Ok(id) => id == max_id(old(self)@) + 1,
                Err(StoreError::NameTaken { name }) => name@ == egg@.name && contains_name(
                    old(self)@,
                    egg@.name,
                ),
                Err(StoreError::IdsExhausted) => !contains_name(old(self)@, egg@.name) && max_id(
                    old(self)@,
                ) == usize::MAX,
                Err(_) => false,
            },
    {
        let p = slot_for_name(&self.eggs, egg.name.as_str());
        proof {
            lemma_name_at_insertion_point(self@, egg@.name, p as int);
            lemma_insertion_point(self@, egg@.name, p as int);
        }
        if p < self.eggs.len() && str_eq(self.eggs[p].name.as_str(), egg.name.as_str()) {
            return Err(StoreError::NameTaken { name: egg.name.clone() });
        }
        let largest = self.largest_id();
        if largest == usize::MAX {
            return Err(StoreError::IdsExhausted);
        }
        let next_id: usize = largest + 1;
        let mut new_egg = egg.clone();
        new_egg.id = Some(next_id);
        let ghost before = self@;
        let ghost added = new_egg@;
        self.eggs.insert(p, new_egg);
        proof {
            assert(self@ =~= before.insert(p as int, added));
            assert(added == EggView { id: Some(next_id), ..egg@ });
            lemma_collected_wf(before, egg@);
        }
        Ok(next_id)
    }

    /// The store that results from the eggs read from disk: those that
    /// plugins registered are left out, the others stand by name, are
    /// numbered from 1 in that order, and wait to be started where they
    /// were written down as running.
    pub fn from_persisted(eggs: Vec<Egg>) -> (r: KurvState)
        ensures
            r.wf(),
            r@ == restored(views(eggs@)),
    {
        let mut kept: Vec<Egg> = Vec::new();
        let mut i: usize = 0;
        proof {
            assert(views(eggs@).take(0) =~= Seq::<EggView>::empty());
            assert(views(kept@) =~= Seq::<EggView>::empty());
        }
        while i < eggs.len()
            invariant
                i <= eggs@.len(),
                views(kept@) == gathered(views(eggs@).take(i as int)),
            decreases eggs@.len() - i,
        {
            let ghost before = views(kept@);
            proof {
                let upto = views(eggs@).take(i + 1);
                assert(upto.drop_last() =~= views(eggs@).take(i as int));
                assert(upto.last() == eggs@[i as int]@);
                lemma_gathered_order(views(eggs@).take(i as int));
            }
            if !eggs[i].is_plugin() {
                let e = eggs[i].clone();
                let p = slot_for_name(&kept, e.name.as_str());
                proof {
                    lemma_insertion_point(before, e@.name, p as int);
                }
                if p < kept.len() && str_eq(kept[p].name.as_str(), e.name.as_str()) {
                    kept.set(p, e);
                    assert(views(kept@) =~= before.update(p as int, e@));
                } else {
                    kept.insert(p, e);
                    assert(views(kept@) =~= before.insert(p as int, e@));
                }
            }
            i += 1;
        }
        proof {
            assert(views(eggs@).take(eggs@.len() as int) =~= views(eggs@));
            lemma_gathered_order(views(eggs@));
        }
        let ghost g = views(kept@);
        let mut k: usize = 0;
        while k < kept.len()
            invariant
                k <= kept@.len(),
                kept@.len() == g.len(),
                forall|j: int| 0 <= j < k ==> #[trigger] views(kept@)[j] == renumbered(g)[j],
                forall|j: int| k <= j < kept@.len() ==> #[trigger] views(kept@)[j] == g[j],
            decreases kept@.len() - k,
        {
            let ghost before = views(kept@);
            let mut e = kept[k].clone();
            e.id = Some(k + 1);
            let downgrade = e.is_running();
            if downgrade {
                e.set_status(EggStatus::Pending);
            }
            proof {
                assert(before[k as int] == g[k as int]);
                assert(e@ == renumbered(g)[k as int]);
            }
            kept.set(k, e);
            proof {
                assert forall|j: int| 0 <= j < k + 1 implies #[trigger] views(kept@)[j] == renumbered(g)[j] by {
                    if j < k {
                        assert(views(kept@)[j] == before[j]);
                    }
                }
                assert forall|j: int| k + 1 <= j < kept@.len() implies #[trigger] views(kept@)[j] == g[j] by {
                    assert(views(kept@)[j] == before[j]);
                }
            }
            k += 1;
        }
        let r = KurvState { eggs: kept };
        proof {
            assert(r@ =~= renumbered(g));
            lemma_renumbered_wf(g);
        }
        r
    }

    /// Lets every egg that is marked as running wait to be started.
    pub fn downgrade_running(&mut self)
        requires
            old(self).wf(),
        ensures
            final(self).wf(),
            final(self)@ == all_downgraded(old(self)@),
    {
        let mut i: usize = 0;
        let n = self.eggs.len();
        while i < n
            invariant
                i <= n,
                n == self@.len(),
                n == old(self)@.len(),
                self.wf(),
                forall|j: int| 0 <= j < i ==> #[trigger] self@[j] == downgraded(old(self)@[j]),
                forall|j: int| i <= j < n ==> #[trigger] self@[j] == old(self)@[j],
            decreases n - i,
        {
            let ghost before = self@;
            if self.eggs[i].is_running() {
                let e = self.egg_at_mut(i);
                e.set_status(EggStatus::Pending);
                proof {
                    lemma_update_keeps_wf(before, i as int, downgraded(before[i as int]));
                }
            }
            proof {
                assert(self@[i as int] == downgraded(old(self)@[i as int]));
                assert forall|j: int| 0 <= j < i + 1 implies #[trigger] self@[j] == downgraded(
                    old(self)@[j],
                ) by {
                    if j < i {
                        assert(self@[j] == before[j]);
                    }
                }
                assert forall|j: int| i + 1 <= j < n implies #[trigger] self@[j] == old(self)@[j] by {
                    assert(self@[j] == before[j]);
                }
            }
            i += 1;
        }
        proof {
            assert(self@ =~= all_downgraded(old(self)@));
        }
    }

    /// Copies of the eggs of one kind, in ascending order of their names:
    /// those that plugins registered where `plugins` holds, the others
    /// where it does not.
    pub fn eggs_of_kind(&self, plugins: bool) -> (r: Vec<Egg>)
        ensures
            views(r@) == of_kind(self@, plugins),
    {
        let mut out: Vec<Egg> = Vec::new();
        let mut i: usize = 0;
        proof {
            assert(self@.take(0) =~= Seq::<EggView>::empty());
            assert(views(out@) =~= Seq::<EggView>::empty());
        }
        while i < self.eggs.len()
            invariant
                i <= self.eggs@.len(),
                views(out@) == of_kind(self@.take(i as int), plugins),
            decreases self.eggs@.len() - i,
        {
            let ghost before = views(out@);
            proof {
                let upto = self@.take(i + 1);
                assert(upto.drop_last() =~= self@.take(i as int));
                assert(upto.last() == self@[i as int]);
            }
            if self.eggs[i].is_plugin() == plugins {
                out.push(self.eggs[i].clone());
                assert(views(out@) =~= before.push(self@[i as int]));
            }
            i += 1;
        }
        proof {
            assert(self@.take(self@.len() as int) =~= self@);
        }
        out
    }

    /// Copies of the eggs that plugins registered.
    pub fn get_plugins(&self) -> (r: Vec<Egg>)
        ensures
            views(r@) == of_kind(self@, true),
    {
        self.eggs_of_kind(true)
    }

    /// Copies of the eggs that no plugin registered.
    pub fn get_eggs(&self) -> (r: Vec<Egg>)
        ensures
            views(r@) == of_kind(self@, false),
    {
        self.eggs_of_kind(false)
    }

    /// Copies of all eggs, in ascending order of their names: what is
    /// written to disk.
    pub fn snapshot(&self) -> (r: Vec<Egg>)
        ensures
            views(r@) == self@,
    {
        let mut out: Vec<Egg> = Vec::new();
        let mut i: usize = 0;
        while i < self.eggs.len()
            invariant
                i <= self.eggs@.len(),
                views(out@) == self@.take(i as int),
            decreases self.eggs@.len() - i,
        {
            let ghost before = views(out@);
            out.push(self.eggs[i].clone());
            proof {
                assert(views(out@) =~= before.push(self@[i as int]));
                assert(self@.take(i + 1) =~= self@.take(i as int).push(self@[i as int]));
            }
            i += 1;
        }
        proof {
            assert(self@.take(self@.len() as int) =~= self@);
        }
        out
    }

    /// The position of the egg of the given name.
    pub fn position_by_name(&self, name: &str) -> (r: Option<usize>)
        requires
            self.wf(),
        ensures
            match r {
                Some(i) => i < self@.len() && index_of_name(self@, name@) == Some(i as int)
                    && self@[i as int].name == name@,
                None => index_of_name(self@, name@) is None && !contains_name(self@, name@),
            },
    {
        self.position_of_name(name)
    }

    /// The position of the first egg with the given id.
    pub fn position_by_id(&self, id: usize) -> (r: Option<usize>)
        ensures
            match r {
                Some(i) => i < self@.len() && index_of_id(self@, id) == Some(i as int)
                    && self@[i as int].id == Some(id),
                None => index_of_id(self@, id) is None,
            },
    {
        self.position_of_id(id)
    }

    /// The egg at position `i`, to be changed in place. The store holds
    /// what the caller leaves in the egg; it stays in order as long as the
    /// egg keeps its name and its id.
    pub fn egg_at_mut(&mut self, i: usize) -> (r: &mut Egg)
        requires
            i < old(self)@.len(),
        ensures
            r@ == old(self)@[i as int],
            final(self)@ == old(self)@.update(i as int, final(r)@),
    {
        let ghost before = self.eggs@;
        let e = &mut self.eggs[i];
        proof {
            assert(views(before.update(i as int, *final(e))) =~= views(before).update(i as int, final(e)@));
        }
        e
    }

    /// The first egg with the given id.
    pub fn get(&self, id: usize) -> (r: Option<&Egg>)
        ensures
            match r {
                Some(e) => index_of_id(self@, id) matches Some(i) && e@ == self@[i] && e@.id == Some(id),
                None => index_of_id(self@, id) is None,
            },
    {
        match self.position_of_id(id) {
            Some(i) => Some(&self.eggs[i]),
            None => None,
        }
    }

    /// The first egg with the given id, to be changed in place. The store
    /// holds what the caller leaves in the egg; it stays in order as long
    /// as the egg keeps its name and its id.
    pub fn get_mut(&mut self, id: usize) -> (r: Option<&mut Egg>)
        ensures
            match r {
                Some(e) => index_of_id(old(self)@, id) matches Some(i) && e@ == old(self)@[i] && e@.id
                    == Some(id) && final(self)@ == old(self)@.update(i, final(e)@),
                None => index_of_id(old(self)@, id) is None && final(self)@ == old(self)@,
            },
    {
        match self.position_of_id(id) {
            Some(i) => {
                let ghost before = self.eggs@;
                let e = &mut self.eggs[i];
                proof {
                    assert(before.update(i as int, *final(e)).map_values(|e: Egg| e@) =~= before.map_values(
                        |e: Egg| e@,
                    ).update(i as int, final(e)@));
                }
                Some(e)
            },
            None => None,
        }
    }

    /// The egg of the given name.
    pub fn get_by_name(&self, name: &str) -> (r: Option<&Egg>)
        requires
            self.wf(),
        ensures
            match r {
                Some(e) => index_of_name(self@, name@) matches Some(i) && e@ == self@[i] && e@.name
                    == name@,
                None => !contains_name(self@, name@),
            },
    {
        match self.position_of_name(name) {
            Some(i) => Some(&self.eggs[i]),
            None => None,
        }
    }

    /// The first egg that has a state with the given process id.
    pub fn get_by_pid(&self, pid: u32) -> (r: Option<&Egg>)
        ensures
            match r {
                Some(e) => index_of_pid(self@, pid) matches Some(i) && e@ == self@[i],
                None => index_of_pid(self@, pid) is None,
            },
    {
        match self.position_of_pid(pid) {
            Some(i) => Some(&self.eggs[i]),
            None => None,
        }
    }

    /// Whether an egg of that name is in the store.
    pub fn contains_key(&self, key: String) -> (r: bool)
        requires
            self.wf(),
        ensures
            r == contains_name(self@, key@),
    {
        self.position_of_name(key.as_str()).is_some()
    }

    /// The id of the egg that `token` stands for: its id, else a process
    /// id, else its name, in that order.
    pub fn get_id_by_token(&self, token: &str) -> (r: Option<usize>)
        requires
            self.wf(),
        ensures
            r == resolve_token(self@, token@),
    {
        if let Some(n) = parse_decimal(token, usize::MAX as u64) {
            if let Some(i) = self.position_of_id(n as usize) {
                return self.eggs[i].id;
            }
        }
        if let Some(n) = parse_decimal(token, u32::MAX as u64) {
            if let Some(i) = self.position_of_pid(n as u32) {
                return self.eggs[i].id;
            }
        }
        match self.position_of_name(token) {
            Some(i) => self.eggs[i].id,
            None => None,
        }
    }

    /// Takes the first egg with the given id out of the store and returns
    /// it. An egg that still has a process id stays, and so does the store
    /// where no egg has that id.
    pub fn remove(&mut self, id: usize) -> (r: Result<Egg, StoreError>)
        requires
            old(self).wf(),
        ensures
            final(self).wf(),
            match r {
                Ok(e) => index_of_id(old(self)@, id) matches Some(i) && e@ == old(self)@[i] && !(
                e@.state matches Some(st) && st.pid > 0) && final(self)@ == old(self)@.remove(i),
                Err(StoreError::NotFound { id: missing }) => missing == id && index_of_id(
                    old(self)@,
                    id,
                ) is None && final(self)@ == old(self)@,
                Err(StoreError::StillRunning { name, pid }) => index_of_id(old(self)@, id) matches Some(
                    i,
                ) && old(self)@[i].state matches Some(st) && st.pid == pid && pid > 0 && name@ == old(self)@[i].name && final(self)@ == old(self)@,
                Err(_) => false,
            },
    {
        match self.position_of_id(id) {
            Some(i) => {
                let running: Option<u32> = match &self.eggs[i].state {
                    Some(st) => if st.pid > 0 {
                        Some(st.pid)
                    } else {
                        None
                    },
                    None => None,
                };
                if let Some(pid) = running {
                    return Err(StoreError::StillRunning { name: self.eggs[i].name.clone(), pid });
                }
                let ghost before = self@;
                let e = self.eggs.remove(i);
                proof {
                    assert(self@ =~= before.remove(i as int));
                    lemma_remove_keeps_wf(before, i as int);
                }
                Ok(e)
            },
            None => Err(StoreError::NotFound { id }),
        }
    }
}

/// A position between eggs in ascending order at which a new name fits
/// keeps the order when an egg of that name is put there.
pub proof fn lemma_insert_keeps_order(s: Seq<EggView>, p: int, e: EggView)
    requires
        names_ascend(s),
        0 <= p <= s.len(),
        forall|i: int| 0 <= i < p ==> lex_lt(#[trigger] s[i].name, e.name),
        forall|i: int| p <= i < s.len() ==> lex_lt(e.name, #[trigger] s[i].name),
    ensures
        names_ascend(s.insert(p, e)),
{
    let t = s.insert(p, e);
    assert forall|i: int, j: int| 0 <= i < j < t.len() implies lex_lt(
        #[trigger] t[i].name,
        #[trigger] t[j].name,
    ) by {
        if j < p {
            assert(lex_lt(s[i].name, s[j].name));
        } else if j == p {
            assert(lex_lt(s[i].name, e.name));
        } else if i < p {
            assert(lex_lt(s[i].name, s[j - 1].name));
        } else if i == p {
            assert(lex_lt(e.name, s[j - 1].name));
        } else {
            assert(lex_lt(s[i - 1].name, s[j - 1].name));
        }
    }
}

/// What the insertion point is among eggs in ascending order: only smaller
/// names stand before it, and no smaller name at it.
pub proof fn lemma_insertion_point_splits(s: Seq<EggView>, name: Seq<char>)
    requires
        names_ascend(s),
    ensures
        0 <= insertion_point(s, name) <= s.len(),
        forall|i: int| 0 <= i < insertion_point(s, name) ==> lex_lt(#[trigger] s[i].name, name),
        insertion_point(s, name) < s.len() ==> !lex_lt(s[insertion_point(s, name)].name, name),
    decreases s.len(),
{
    if s.len() > 0 {
        let last = s.len() - 1;
        let front = s.drop_last();
        assert(names_ascend(front)) by {
            assert forall|i: int, j: int| 0 <= i < j < front.len() implies lex_lt(
                #[trigger] front[i].name,
                #[trigger] front[j].name,
            ) by {
                assert(lex_lt(s[i].name, s[j].name));
            }
        }
        if lex_lt(s.last().name, name) {
            assert forall|i: int| 0 <= i < s.len() implies lex_lt(#[trigger] s[i].name, name) by {
                if i < last {
                    assert(lex_lt(s[i].name, s[last].name));
                    lemma_lex_lt_transitive(s[i].name, s[last].name, name);
                }
            }
        } else {
            lemma_insertion_point_splits(front, name);
            let p = insertion_point(front, name);
            assert forall|i: int| 0 <= i < p implies lex_lt(#[trigger] s[i].name, name) by {
                assert(lex_lt(front[i].name, name));
            }
            if p < front.len() {
                assert(front[p] == s[p]);
            }
        }
    }
}

/// Collecting an egg leaves the store in order.
pub proof fn lemma_collected_wf(s: Seq<EggView>, e: EggView)
    requires
        store_wf(s),
    ensures
        store_wf(collected(s, e).0),
{
    if !(contains_name(s, e.name) || max_id(s) >= usize::MAX) {
        let p = insertion_point(s, e.name);
        let id = (max_id(s) + 1) as usize;
        let added = EggView { id: Some(id), ..e };
        let t = s.insert(p, added);
        lemma_insertion_point_splits(s, e.name);
        lemma_name_at_insertion_point(s, e.name, p);
        lemma_insert_keeps_order(s, p, added);
        assert forall|i: int| 0 <= i < t.len() implies (#[trigger] t[i].id) is Some by {
            if i < p {
                assert(s[i].id is Some);
            } else if i > p {
                assert(s[i - 1].id is Some);
            }
        }
        assert forall|i: int, j: int| 0 <= i < j < t.len() implies #[trigger] t[i].id != #[trigger] t[j].id by {
            let a = if i < p { i } else { i - 1 };
            let b = if j < p { j } else { j - 1 };
            if i == p {
                lemma_max_id_bounds(s, b);
                assert(s[b].id is Some);
            } else if j == p {
                lemma_max_id_bounds(s, a);
                assert(s[a].id is Some);
            } else {
                assert(s[a].id != s[b].id);
            }
        }
    }
}

/// Name uniqueness: once an egg has been collected, a second egg of the
/// same name is refused and changes nothing, so the store holds one egg of
/// that name, under the id that the first one was given.
pub proof fn lemma_collect_twice(s: Seq<EggView>, first: EggView, second: EggView)
    requires
        store_wf(s),
        first.name == second.name,
        collected(s, first).1 is Some,
    ensures
        collected(collected(s, first).0, second) == (collected(s, first).0, None::<usize>),
        index_of_name(collected(s, first).0, first.name) matches Some(i) && collected(s, first).0[i].id
            == collected(s, first).1,
        forall|i: int, j: int|
            #![trigger collected(s, first).0[i], collected(s, first).0[j]]
            0 <= i < collected(s, first).0.len() && 0 <= j < collected(s, first).0.len() && collected(
                s,
                first,
            ).0[i].name == first.name && collected(s, first).0[j].name == first.name ==> i == j,
{
    let t = collected(s, first).0;
    let p = insertion_point(s, first.name);
    lemma_collected_wf(s, first);
    lemma_insertion_point_splits(s, first.name);
    assert(t[p].name == first.name);
    assert(contains_name(t, second.name));
    assert forall|i: int, j: int|
        0 <= i < t.len() && 0 <= j < t.len() && t[i].name == first.name && t[j].name
            == first.name implies i == j by {
        lemma_lex_lt_irreflexive(first.name);
        if i < j {
            assert(lex_lt(t[i].name, t[j].name));
        } else if j < i {
            assert(lex_lt(t[j].name, t[i].name));
        }
    }
    lemma_first_where(t, |e: EggView| e.name == first.name);
}

/// A token that is the id of an egg stands for that egg, whatever process
/// ids and names the store holds.
pub proof fn lemma_token_id_first(s: Seq<EggView>, token: Seq<char>, id: usize)
    requires
        parse_unsigned(token, usize::MAX as nat) == Some(id as nat),
        index_of_id(s, id) is Some,
    ensures
        resolve_token(s, token) == Some(id),
{
    lemma_first_where(s, |e: EggView| e.id == Some(id));
}

/// A token that is a number and no egg's id stands for the first egg with
/// that process id, whatever names the store holds.
pub proof fn lemma_token_pid_second(s: Seq<EggView>, token: Seq<char>, pid: u32)
    requires
        parse_unsigned(token, u32::MAX as nat) == Some(pid as nat),
        index_of_id(s, pid as usize) is None,
        index_of_pid(s, pid) is Some,
    ensures
        resolve_token(s, token) == s[index_of_pid(s, pid)->0].id,
{
}

/// A token that is neither the id nor the process id of an egg stands for
/// the egg of that name.
pub proof fn lemma_token_name_last(s: Seq<EggView>, token: Seq<char>)
    requires
        parse_unsigned(token, usize::MAX as nat) matches Some(n) ==> index_of_id(s, n as usize) is None,
        parse_unsigned(token, u32::MAX as nat) matches Some(n) ==> index_of_pid(s, n as u32) is None,
    ensures
        resolve_token(s, token) == match index_of_name(s, token) {
            Some(i) => s[i].id,
            None => None,
        },
{
}

/// The eggs of one kind, in their order: those that plugins registered
/// where `plugins` holds, the others where it does not.
pub open spec fn of_kind(s: Seq<EggView>, plugins: bool) -> Seq<EggView>
    decreases s.len(),
{
    if s.len() == 0 {
        Seq::empty()
    } else if s.last().is_plugin() == plugins {
        of_kind(s.drop_last(), plugins).push(s.last())
    } else {
        of_kind(s.drop_last(), plugins)
    }
}

/// An egg as it is after a cold start: one that was written down as
/// running waits to be started again, since its process is not the
/// supervisor's own.
pub open spec fn downgraded(e: EggView) -> EggView {
    match e.state {
        Some(st) => if st.status == EggStatus::Running {
            e.with_state(EggStateView { status: EggStatus::Pending, ..st })
        } else {
            e
        },
        None => e,
    }
}

/// The eggs, each as it is after a cold start.
pub open spec fn all_downgraded(s: Seq<EggView>) -> Seq<EggView> {
    Seq::new(s.len(), |i: int| downgraded(s[i]))
}

/// The eggs with one more put among them by name: it takes the place of
/// an egg of the same name.
pub open spec fn upserted(s: Seq<EggView>, e: EggView) -> Seq<EggView> {
    let p = insertion_point(s, e.name);
    if p < s.len() && s[p].name == e.name {
        s.update(p, e)
    } else {
        s.insert(p, e)
    }
}

/// The eggs that a store keeps of those read from disk: none that a plugin
/// registered, the others by name, of two with one name the later.
pub open spec fn gathered(eggs: Seq<EggView>) -> Seq<EggView>
    decreases eggs.len(),
{
    if eggs.len() == 0 {
        Seq::empty()
    } else if eggs.last().is_plugin() {
        gathered(eggs.drop_last())
    } else {
        upserted(gathered(eggs.drop_last()), eggs.last())
    }
}

/// The eggs numbered from 1 in their order, each as it is after a cold
/// start.
pub open spec fn renumbered(s: Seq<EggView>) -> Seq<EggView> {
    Seq::new(s.len(), |i: int| EggView { id: Some((i + 1) as usize), ..downgraded(s[i]) })
}

/// The store that results from the eggs read from disk.
pub open spec fn restored(eggs: Seq<EggView>) -> Seq<EggView> {
    renumbered(gathered(eggs))
}

/// Putting an egg among eggs in ascending order leaves them so, and every
/// name that bounded them from above still does if it bounds the new egg.
pub proof fn lemma_upserted_order(s: Seq<EggView>, e: EggView)
    requires
        names_ascend(s),
    ensures
        names_ascend(upserted(s, e)),
{
    let p = insertion_point(s, e.name);
    lemma_insertion_point_splits(s, e.name);
    lemma_name_at_insertion_point(s, e.name, p);
    if p < s.len() && s[p].name == e.name {
        let t = s.update(p, e);
        assert forall|i: int, j: int| 0 <= i < j < t.len() implies lex_lt(
            #[trigger] t[i].name,
            #[trigger] t[j].name,
        ) by {
            assert(lex_lt(s[i].name, s[j].name));
        }
    } else {
        lemma_insert_keeps_order(s, p, e);
    }
}

/// The eggs kept of those read from disk stand in ascending order.
pub proof fn lemma_gathered_order(eggs: Seq<EggView>)
    ensures
        names_ascend(gathered(eggs)),
    decreases eggs.len(),
{
    if eggs.len() > 0 {
        lemma_gathered_order(eggs.drop_last());
        if !eggs.last().is_plugin() {
            lemma_upserted_order(gathered(eggs.drop_last()), eggs.last());
        }
    }
}

/// Numbering keeps the order of the names and gives every egg an id of
/// its own.
pub proof fn lemma_renumbered_wf(s: Seq<EggView>)
    requires
        names_ascend(s),
        s.len() <= usize::MAX,
    ensures
        store_wf(renumbered(s)),
{
    let t = renumbered(s);
    assert forall|i: int, j: int| 0 <= i < j < t.len() implies lex_lt(
        #[trigger] t[i].name,
        #[trigger] t[j].name,
    ) by {
        assert(lex_lt(s[i].name, s[j].name));
    }
}

/// The eggs of one kind among eggs in ascending order stand in ascending
/// order, below every name that all the eggs are below.
pub proof fn lemma_of_kind_order(s: Seq<EggView>, plugins: bool, bound: Seq<char>)
    requires
        names_ascend(s),
        forall|i: int| 0 <= i < s.len() ==> lex_lt(#[trigger] s[i].name, bound),
    ensures
        names_ascend(of_kind(s, plugins)),
        forall|i: int| 0 <= i < of_kind(s, plugins).len() ==> lex_lt(#[trigger] of_kind(s, plugins)[i].name, bound),
        forall|i: int| 0 <= i < of_kind(s, plugins).len() ==> (#[trigger] of_kind(s, plugins)[i]).is_plugin() == plugins,
    decreases s.len(),
{
    if s.len() > 0 {
        let front = s.drop_last();
        let last = s.last();
        assert forall|i: int, j: int| 0 <= i < j < front.len() implies lex_lt(
            #[trigger] front[i].name,
            #[trigger] front[j].name,
        ) by {
            assert(lex_lt(s[i].name, s[j].name));
        }
        assert forall|i: int| 0 <= i < front.len() implies lex_lt(#[trigger] front[i].name, last.name) by {
            assert(lex_lt(s[i].name, s[s.len() - 1].name));
        }
        assert forall|i: int| 0 <= i < front.len() implies lex_lt(#[trigger] front[i].name, bound) by {
            assert(lex_lt(s[i].name, bound));
        }
        lemma_of_kind_order(front, plugins, last.name);
        lemma_of_kind_order(front, plugins, bound);
        assert(lex_lt(s[s.len() - 1].name, bound));
    }
}

/// Among eggs in ascending order, those kept of them are the eggs that no
/// plugin registered, as they stand.
pub proof fn lemma_gathered_of_ordered(s: Seq<EggView>)
    requires
        names_ascend(s),
    ensures
        gathered(s) == of_kind(s, false),
    decreases s.len(),
{
    if s.len() > 0 {
        let front = s.drop_last();
        let last = s.last();
        assert forall|i: int, j: int| 0 <= i < j < front.len() implies lex_lt(
            #[trigger] front[i].name,
            #[trigger] front[j].name,
        ) by {
            assert(lex_lt(s[i].name, s[j].name));
        }
        lemma_gathered_of_ordered(front);
        if !last.is_plugin() {
            assert forall|i: int| 0 <= i < front.len() implies lex_lt(#[trigger] front[i].name, last.name) by {
                assert(lex_lt(s[i].name, s[s.len() - 1].name));
            }
            lemma_of_kind_order(front, false, last.name);
            let g = of_kind(front, false);
            lemma_insertion_point(g, last.name, g.len() as int);
            assert(g.insert(g.len() as int, last) =~= g.push(last));
        }
    }
}

/// Round trip: a store that is written to disk and read again holds the
/// eggs that no plugin registered, as they were and in their order, but
/// numbered from 1, and waiting to be started where they were running.
pub proof fn lemma_round_trip(s: Seq<EggView>)
    requires
        store_wf(s),
    ensures
        restored(s) == renumbered(of_kind(s, false)),
        restored(s).len() == of_kind(s, false).len(),
        forall|i: int|
            0 <= i < restored(s).len() ==> #[trigger] restored(s)[i] == (EggView {
                id: Some((i + 1) as usize),
                ..downgraded(of_kind(s, false)[i])
            }),
{
    lemma_gathered_of_ordered(s);
}

/// A store stays in order when an egg changes but keeps its name and id.
pub proof fn lemma_update_keeps_wf(s: Seq<EggView>, i: int, e: EggView)
    requires
        store_wf(s),
        0 <= i < s.len(),
        e.name == s[i].name,
        e.id == s[i].id,
    ensures
        store_wf(s.update(i, e)),
{
    let t = s.update(i, e);
    assert forall|a: int, b: int| 0 <= a < b < t.len() implies lex_lt(
        #[trigger] t[a].name,
        #[trigger] t[b].name,
    ) by {
        assert(lex_lt(s[a].name, s[b].name));
    }
    assert forall|a: int| 0 <= a < t.len() implies (#[trigger] t[a].id) is Some by {
        assert(s[a].id is Some);
    }
    assert forall|a: int, b: int| 0 <= a < b < t.len() implies #[trigger] t[a].id != #[trigger] t[b].id by {
        assert(s[a].id != s[b].id);
    }
}

/// Where every egg has an id of its own, an egg is the first with its id.
pub proof fn lemma_index_of_own_id(s: Seq<EggView>, i: int)
    requires
        ids_distinct(s),
        0 <= i < s.len(),
    ensures
        index_of_id(s, s[i].id->0) == Some(i),
{
    let id = s[i].id->0;
    assert(s[i].id is Some);
    assert forall|j: int| 0 <= j < i implies (#[trigger] s[j]).id != Some(id) by {
        assert(s[j].id != s[i].id);
    }
    lemma_first_where_is(s, |e: EggView| e.id == Some(id), i);
}

/// Eggs of which each has a name that comes after that of the egg before
/// it stand in ascending order.
pub proof fn lemma_adjacent_ascend(s: Seq<EggView>)
    requires
        forall|a: int| 0 < a < s.len() ==> lex_lt(s[a - 1].name, #[trigger] s[a].name),
    ensures
        names_ascend(s),
{
    assert forall|i: int, j: int| 0 <= i < j < s.len() implies lex_lt(
        #[trigger] s[i].name,
        #[trigger] s[j].name,
    ) by {
        lemma_ascend_between(s, i, j);
    }
}

proof fn lemma_ascend_between(s: Seq<EggView>, i: int, j: int)
    requires
        forall|a: int| 0 < a < s.len() ==> lex_lt(s[a - 1].name, #[trigger] s[a].name),
        0 <= i < j < s.len(),
    ensures
        lex_lt(s[i].name, s[j].name),
    decreases j - i,
{
    assert(lex_lt(s[j - 1].name, s[j].name));
    if i < j - 1 {
        lemma_ascend_between(s, i, j - 1);
        lemma_lex_lt_transitive(s[i].name, s[j - 1].name, s[j].name);
    }
}

/// A store stays in order when an egg leaves.
pub proof fn lemma_remove_keeps_wf(s: Seq<EggView>, i: int)
    requires
        store_wf(s),
        0 <= i < s.len(),
    ensures
        store_wf(s.remove(i)),
{
    let t = s.remove(i);
    assert forall|a: int, b: int| 0 <= a < b < t.len() implies lex_lt(
        #[trigger] t[a].name,
        #[trigger] t[b].name,
    ) by {
        let a0 = if a < i { a } else { a + 1 };
        let b0 = if b < i { b } else { b + 1 };
        assert(lex_lt(s[a0].name, s[b0].name));
    }
    assert forall|a: int| 0 <= a < t.len() implies (#[trigger] t[a].id) is Some by {
        let a0 = if a < i { a } else { a + 1 };
        assert(s[a0].id is Some);
    }
    assert forall|a: int, b: int| 0 <= a < b < t.len() implies #[trigger] t[a].id != #[trigger] t[b].id by {
        let a0 = if a < i { a } else { a + 1 };
        let b0 = if b < i { b } else { b + 1 };
        assert(s[a0].id != s[b0].id);
    }
}

} // verus!
