//! The replicated catalog: an add-wins observed-remove set of
//! `(repository, reference)` elements, exchanged between nodes as deltas.
use vstd::prelude::*;

verus! {

/// A unique add-tag: the node that made the add and that node's counter.
#[derive(Debug, Clone, Copy, PartialEq, Eq, Structural)]
pub struct Nonce {
    pub node: u64,
    pub seq: u64,
}

/// An element of the catalog: a repository with a tag or a manifest digest string.
#[derive(Debug)]
pub struct Element {
    pub repository: String,
    pub reference: String,
}

pub type ElementView = (Seq<char>, Seq<char>);

impl View for Element {
    type V = ElementView;

    open spec fn view(&self) -> ElementView {
        (self.repository@, self.reference@)
    }
}

impl Clone for Element {
    fn clone(&self) -> (r: Element)
        ensures
            r@ == self@,
    {
        Element { repository: self.repository.clone(), reference: self.reference.clone() }
    }
}

impl Element {
    pub fn new(repository: &str, reference: &str) -> (r: Element)
        ensures
            r@ == (repository@, reference@),
    {
        Element { repository: repository.to_owned(), reference: reference.to_owned() }
    }

    pub fn same(&self, other: &Element) -> (r: bool)
        ensures
            r == (self@ == other@),
    {
        self.repository == other.repository && self.reference == other.reference
    }
}

#[derive(Debug, Clone, Copy, PartialEq, Eq, Structural)]
pub enum DeltaOp {
    Add,
    Remove,
}

/// One mutation, as sent to other nodes: the element and the add-tags it adds
/// or tombstones.
#[derive(Debug)]
pub struct Delta {
    pub op: DeltaOp,
    pub element: Element,
    pub tags: Vec<Nonce>,
}

pub struct DeltaView {
    pub op: DeltaOp,
    pub element: ElementView,
    pub tags: Set<Nonce>,
}

impl View for Delta {
    type V = DeltaView;

    open spec fn view(&self) -> DeltaView {
        DeltaView { op: self.op, element: self.element@, tags: self.tags@.to_set() }
    }
}

impl Clone for Delta {
    fn clone(&self) -> (r: Delta)
        ensures
            r@ == self@,
    {
        let r = Delta { op: self.op, element: self.element.clone(), tags: self.tags.clone() };
        assert(r.tags@ =~= self.tags@);
        r
    }
}

/// The catalog's state: the observed adds and the tombstones, each a set of
/// (element, add-tag) pairs.
pub struct CatalogView {
    pub adds: Set<(ElementView, Nonce)>,
    pub tombs: Set<(ElementView, Nonce)>,
}

pub open spec fn empty_view() -> CatalogView {
    CatalogView { adds: Set::empty(), tombs: Set::empty() }
}

/// The pairs that a delta carries.
pub open spec fn stamps(d: DeltaView) -> Set<(ElementView, Nonce)> {
    Set::new(|p: (ElementView, Nonce)| p.0 == d.element && d.tags.contains(p.1))
}

/// Applying a delta: an Add joins its tags to the adds, a Remove to the tombstones.
pub open spec fn merge_spec(s: CatalogView, d: DeltaView) -> CatalogView {
    match d.op {
        DeltaOp::Add => CatalogView { adds: s.adds + stamps(d), tombs: s.tombs },
        DeltaOp::Remove => CatalogView { adds: s.adds, tombs: s.tombs + stamps(d) },
    }
}

/// Applying deltas in order.
pub open spec fn replay(s: CatalogView, ds: Seq<DeltaView>) -> CatalogView
    decreases ds.len(),
{
    if ds.len() == 0 {
        s
    } else {
        merge_spec(replay(s, ds.drop_last()), ds.last())
    }
}

/// An element is present when some add-tag of it is not tombstoned.
pub open spec fn present(s: CatalogView, e: ElementView) -> bool {
    exists|n: Nonce| s.adds.contains((e, n)) && !s.tombs.contains((e, n))
}

/// The add-tags of `e` that have been observed.
pub open spec fn observed(s: CatalogView, e: ElementView) -> Set<Nonce> {
    Set::new(|n: Nonce| s.adds.contains((e, n)))
}

/// Whether the pair `(e, n)` occurs in the state, as an add or a tombstone.
pub open spec fn seen(s: CatalogView, e: ElementView, n: Nonce) -> bool {
    s.adds.contains((e, n)) || s.tombs.contains((e, n))
}

/// Whether `n` occurs in the state, for any element.
pub open spec fn nonce_used(s: CatalogView, n: Nonce) -> bool {
    exists|e: ElementView| seen(s, e, n)
}

/// Whether some string of `v` reads `t`.
pub open spec fn holds(v: Seq<String>, t: Seq<char>) -> bool {
    exists|k: int| 0 <= k < v.len() && v[k]@ == t
}

/// No two strings of `v` read the same.
pub open spec fn distinct(v: Seq<String>) -> bool {
    forall|a: int, b: int| 0 <= a < b < v.len() ==> v[a]@ != v[b]@
}

pub fn contains_string(v: &Vec<String>, t: &String) -> (r: bool)
    ensures
        r == holds(v@, t@),
{
    let mut i: usize = 0;
    while i < v.len()
        invariant
            i <= v@.len(),
            forall|j: int| 0 <= j < i ==> v@[j]@ != t@,
        decreases v@.len() - i,
    {
        if v[i] == *t {
            return true;
        }
        i = i + 1;
    }
    false
}

struct Stamp {
    element: Element,
    nonce: Nonce,
}

impl View for Stamp {
    type V = (ElementView, Nonce);

    closed spec fn view(&self) -> (ElementView, Nonce) {
        (self.element@, self.nonce)
    }
}

spec fn stamp_set(v: Seq<Stamp>) -> Set<(ElementView, Nonce)> {
    Set::new(|p: (ElementView, Nonce)| exists|i: int| 0 <= i < v.len() && v[i]@ == p)
}

proof fn lemma_stamp_set_push(v: Seq<Stamp>, x: Stamp)
    ensures
        stamp_set(v.push(x)) == stamp_set(v).insert(x@),
{
    let w = v.push(x);
    assert forall|p: (ElementView, Nonce)| #[trigger] stamp_set(w).contains(p)
        == stamp_set(v).insert(x@).contains(p) by {
        if stamp_set(v).contains(p) {
            let j = choose|j: int| 0 <= j < v.len() && v[j]@ == p;
            assert(w[j]@ == p);
        }
        if p == x@ {
            assert(w[v.len() as int]@ == p);
        }
        if stamp_set(w).contains(p) && p != x@ {
            let j = choose|j: int| 0 <= j < w.len() && w[j]@ == p;
            assert(v[j]@ == p);
        }
    }
    assert(stamp_set(w) =~= stamp_set(v).insert(x@));
}

proof fn lemma_stamp_set_empty(v: Seq<Stamp>)
    requires
        v.len() == 0,
    ensures
        stamp_set(v) == Set::<(ElementView, Nonce)>::empty(),
{
    assert(stamp_set(v) =~= Set::<(ElementView, Nonce)>::empty());
}

fn contains_stamp(v: &Vec<Stamp>, e: &Element, n: Nonce) -> (r: bool)
    ensures
        r == stamp_set(v@).contains((e@, n)),
{
    let mut i: usize = 0;
    while i < v.len()
        invariant
            i <= v@.len(),
            forall|j: int| 0 <= j < i ==> v@[j]@ != (e@, n),
        decreases v@.len() - i,
    {
        if v[i].nonce == n && v[i].element.same(e) {
            assert(stamp_set(v@).contains((e@, n)) ) by {
                assert(v@[i as int]@ == (e@, n));
            }
            return true;
        }
        i = i + 1;
    }
    false
}

fn insert_stamp(v: &mut Vec<Stamp>, e: &Element, n: Nonce)
    ensures
        stamp_set(final(v)@) == stamp_set(old(v)@).insert((e@, n)),
{
    if contains_stamp(v, e, n) {
        assert(stamp_set(v@) =~= stamp_set(v@).insert((e@, n)));
    } else {
        let ghost before = v@;
        let x = Stamp { element: e.clone(), nonce: n };
        proof { lemma_stamp_set_push(before, x); }
        v.push(x);
    }
}

/// The local replica of the catalog.
pub struct Catalog {
    node: u64,
    next_seq: u64,
    exhausted: bool,
    adds: Vec<Stamp>,
    tombs: Vec<Stamp>,
}

impl Catalog {
    pub closed spec fn view(&self) -> CatalogView {
        CatalogView { adds: stamp_set(self.adds@), tombs: stamp_set(self.tombs@) }
    }

    /// Whether the node can still make a fresh add-tag.
    pub closed spec fn can_stamp(&self) -> bool {
        !self.exhausted && self.next_seq < u64::MAX
    }

    /// Whether the node can make two more fresh add-tags.
    pub closed spec fn can_stamp_twice(&self) -> bool {
        !self.exhausted && self.next_seq < u64::MAX - 1
    }

    pub proof fn lemma_twice_then_once(&self)
        requires
            self.can_stamp_twice(),
        ensures
            self.can_stamp(),
    {
    }

    /// The node this replica stamps its adds with.
    pub closed spec fn node_id(&self) -> u64 {
        self.node
    }

    /// Unless the counter has run out, every add-tag of this node seen so far
    /// is below the counter.
    pub closed spec fn wf(&self) -> bool {
        !self.exhausted ==> forall|e: ElementView, n: Nonce|
            #[trigger] seen(self@, e, n) && n.node == self.node ==> n.seq < self.next_seq
    }

    /// An empty replica for node `node`.
    pub fn new(node: u64) -> (r: Catalog)
        ensures
            r.wf(),
            r@ == empty_view(),
            r.node_id() == node,
            r.can_stamp(),
            r.can_stamp_twice(),
    {
        let r = Catalog { node, next_seq: 0, exhausted: false, adds: Vec::new(), tombs: Vec::new() };
        assert(stamp_set(r.adds@) =~= Set::empty());
        assert(stamp_set(r.tombs@) =~= Set::empty());
        r
    }

    fn note_nonce(&mut self, n: Nonce)
        requires
            old(self).wf(),
        ensures
            final(self).adds == old(self).adds,
            final(self).tombs == old(self).tombs,
            final(self).node == old(self).node,
            final(self).next_seq >= old(self).next_seq,
            old(self).exhausted ==> final(self).exhausted,
            final(self).wf(),
            !final(self).exhausted && n.node == final(self).node ==> n.seq < final(self).next_seq,
    {
        let ghost before = *self;
        if n.node == self.node && n.seq >= self.next_seq {
            if n.seq == u64::MAX {
                self.exhausted = true;
            } else {
                self.next_seq = n.seq + 1;
            }
        }
        assert(self@ == before@);
        if !self.exhausted {
            assert forall|e: ElementView, m: Nonce| #[trigger] seen(self@, e, m) && m.node == self.node
                implies m.seq < self.next_seq by {
                assert(seen(before@, e, m));
            }
        }
    }

    /// Applies a delta from any node. Duplicate and reordered deliveries are
    /// harmless: see `lemma_merge_commutes` and `lemma_merge_idempotent`.
    pub fn merge(&mut self, d: &Delta)
        requires
            old(self).wf(),
        ensures
            final(self).wf(),
            final(self).node_id() == old(self).node_id(),
            final(self)@ == merge_spec(old(self)@, d@),
    {
        let ghost start = self@;
        proof {
            let dv0 = DeltaView { op: d.op, element: d.element@, tags: d.tags@.subrange(0, 0).to_set() };
            assert(dv0.tags =~= Set::empty());
            assert(stamps(dv0) =~= Set::empty());
            assert(start.adds + stamps(dv0) =~= start.adds);
            assert(start.tombs + stamps(dv0) =~= start.tombs);
        }
        let mut i: usize = 0;
        while i < d.tags.len()
            invariant
                self.wf(),
                self.node == old(self).node,
                i <= d.tags@.len(),
                self@ == merge_spec(start, (DeltaView { op: d.op, element: d.element@, tags: d.tags@.subrange(0, i as int).to_set() })),
            decreases d.tags@.len() - i,
        {
            let n = d.tags[i];
            let ghost prev_cat = *self;
            let ghost prev = self@;
            let ghost old_adds = self.adds@;
            let ghost old_tombs = self.tombs@;
            self.note_nonce(n);
            match d.op {
                DeltaOp::Add => insert_stamp(&mut self.adds, &d.element, n),
                DeltaOp::Remove => insert_stamp(&mut self.tombs, &d.element, n),
            }
            proof {
                let t0 = d.tags@.subrange(0, i as int);
                let t1 = d.tags@.subrange(0, i + 1);
                assert(t1 =~= t0.push(n));
                t0.lemma_push_to_set_commute(n);
                if !self.exhausted {
                    assert forall|x: ElementView, m: Nonce| #[trigger] seen(self@, x, m) && m.node == self.node
                        implies m.seq < self.next_seq by {
                        if (x, m) != (d.element@, n) {
                            match d.op {
                                DeltaOp::Add => {
                                    assert(stamp_set(self.adds@) == stamp_set(old_adds).insert((d.element@, n)));
                                    assert(self@.tombs == prev.tombs);
                                },
                                DeltaOp::Remove => {
                                    assert(stamp_set(self.tombs@) == stamp_set(old_tombs).insert((d.element@, n)));
                                    assert(self@.adds == prev.adds);
                                },
                            }
                            assert(seen(prev_cat@, x, m));
                            assert(prev_cat.wf());
                        }
                    }
                }
                let s0 = stamps(DeltaView { op: d.op, element: d.element@, tags: t0.to_set() });
                let s1 = stamps(DeltaView { op: d.op, element: d.element@, tags: t1.to_set() });
                assert(s1 =~= s0.insert((d.element@, n)));
                assert(self@.adds =~= merge_spec(start, DeltaView { op: d.op, element: d.element@, tags: t1.to_set() }).adds);
                assert(self@.tombs =~= merge_spec(start, DeltaView { op: d.op, element: d.element@, tags: t1.to_set() }).tombs);
            }
            i = i + 1;
        }
        assert(d.tags@.subrange(0, d.tags@.len() as int) =~= d.tags@);
    }

    /// The references present for `repository`, each once.
    pub fn references(&self, repository: &str) -> (r: Vec<String>)
        ensures
            forall|t: Seq<char>| #[trigger] holds(r@, t) <==> present(self@, (repository@, t)),
            distinct(r@),
    {
        let repo = repository.to_owned();
        let mut out: Vec<String> = Vec::new();
        let mut i: usize = 0;
        while i < self.adds.len()
            invariant
                i <= self.adds@.len(),
                repo@ == repository@,
                distinct(out@),
                forall|t: Seq<char>| holds(out@, t) ==> present(self@, (repository@, t)),
                forall|j: int| 0 <= j < i && (#[trigger] self.adds@[j].element@).0 == repository@
                    && present(self@, self.adds@[j].element@) ==> holds(out@, self.adds@[j].element@.1),
            decreases self.adds@.len() - i,
        {
            let el = &self.adds[i].element;
            if el.repository == repo && self.is_present(el) && !contains_string(&out, &el.reference) {
                let ghost before = out@;
                out.push(el.reference.clone());
                proof {
                    assert(out@[before.len() as int]@ == el.reference@);
                    assert forall|t: Seq<char>| holds(out@, t) implies present(self@, (repository@, t)) by {
                        let k = choose|k: int| 0 <= k < out@.len() && out@[k]@ == t;
                        if k < before.len() {
                            assert(holds(before, t));
                        }
                    }
                    assert forall|j: int| 0 <= j < i + 1 && (#[trigger] self.adds@[j].element@).0 == repository@
                        && present(self@, self.adds@[j].element@) implies holds(out@, self.adds@[j].element@.1) by {
                        if j < i {
                            let k = choose|k: int| 0 <= k < before.len() && before[k]@ == self.adds@[j].element@.1;
                            assert(out@[k] == before[k]);
                        }
                    }
                    assert forall|a: int, b: int| 0 <= a < b < out@.len() implies out@[a]@ != out@[b]@ by {
                        if b == before.len() {
                            assert(!holds(before, el.reference@));
                        }
                    }
                }
            }
            i = i + 1;
        }
        proof {
            assert forall|t: Seq<char>| present(self@, (repository@, t)) implies holds(out@, t) by {
                let n = choose|n: Nonce| self@.adds.contains(((repository@, t), n)) && !self@.tombs.contains(((repository@, t), n));
                let j = choose|j: int| 0 <= j < self.adds@.len() && self.adds@[j]@ == ((repository@, t), n);
                assert(self.adds@[j].element@ == (repository@, t));
            }
        }
        out
    }

    /// The repositories with at least one present element, each once.
    pub fn repositories(&self) -> (r: Vec<String>)
        ensures
            forall|name: Seq<char>| #[trigger] holds(r@, name) <==> exists|t: Seq<char>| present(self@, (name, t)),
            distinct(r@),
    {
        let mut out: Vec<String> = Vec::new();
        let mut i: usize = 0;
        while i < self.adds.len()
            invariant
                i <= self.adds@.len(),
                distinct(out@),
                forall|name: Seq<char>| holds(out@, name) ==> exists|t: Seq<char>| present(self@, (name, t)),
                forall|j: int| 0 <= j < i && present(self@, #[trigger] self.adds@[j].element@)
                    ==> holds(out@, self.adds@[j].element@.0),
            decreases self.adds@.len() - i,
        {
            let el = &self.adds[i].element;
            if self.is_present(el) && !contains_string(&out, &el.repository) {
                let ghost before = out@;
                out.push(el.repository.clone());
                proof {
                    assert(out@[before.len() as int]@ == el.repository@);
                    assert forall|name: Seq<char>| holds(out@, name) implies exists|t: Seq<char>| present(self@, (name, t)) by {
                        let k = choose|k: int| 0 <= k < out@.len() && out@[k]@ == name;
                        if k < before.len() {
                            assert(holds(before, name));
                        } else {
                            assert(present(self@, (name, el.reference@)));
                        }
                    }
                    assert forall|j: int| 0 <= j < i + 1 && present(self@, #[trigger] self.adds@[j].element@)
                        implies holds(out@, self.adds@[j].element@.0) by {
                        if j < i {
                            let k = choose|k: int| 0 <= k < before.len() && before[k]@ == self.adds@[j].element@.0;
                            assert(out@[k] == before[k]);
                        }
                    }
                    assert forall|a: int, b: int| 0 <= a < b < out@.len() implies out@[a]@ != out@[b]@ by {
                        if b == before.len() {
                            assert(!holds(before, el.repository@));
                        }
                    }
                }
            }
            i = i + 1;
        }
        proof {
            assert forall|name: Seq<char>| (exists|t: Seq<char>| present(self@, (name, t))) implies holds(out@, name) by {
                let t = choose|t: Seq<char>| present(self@, (name, t));
                let n = choose|n: Nonce| self@.adds.contains(((name, t), n)) && !self@.tombs.contains(((name, t), n));
                let j = choose|j: int| 0 <= j < self.adds@.len() && self.adds@[j]@ == ((name, t), n);
                assert(self.adds@[j].element@ == (name, t));
            }
        }
        out
    }

    /// Whether `e` has an add-tag that no tombstone covers.
    pub fn is_present(&self, e: &Element) -> (r: bool)
        ensures
            r == present(self@, e@),
    {
        let mut i: usize = 0;
        while i < self.adds.len()
            invariant
                i <= self.adds@.len(),
                forall|j: int| 0 <= j < i && #[trigger] self.adds@[j].element@ == e@
                    ==> stamp_set(self.tombs@).contains(self.adds@[j]@),
            decreases self.adds@.len() - i,
        {
            if self.adds[i].element.same(e) {
                if !contains_stamp(&self.tombs, e, self.adds[i].nonce) {
                    let ghost n = self.adds@[i as int].nonce;
                    assert(stamp_set(self.adds@).contains((e@, self.adds@[i as int].nonce))) by {
                        assert(self.adds@[i as int]@ == (e@, self.adds@[i as int].nonce));
                    }
                    assert(self@.adds.contains((e@, n)) && !self@.tombs.contains((e@, n)));
                    return true;
                }
            }
            i = i + 1;
        }
        assert(!present(self@, e@)) by {
            if present(self@, e@) {
                let n = choose|n: Nonce| self@.adds.contains((e@, n)) && !self@.tombs.contains((e@, n));
                let j = choose|j: int| 0 <= j < self.adds@.len() && self.adds@[j]@ == (e@, n);
                assert(self.adds@[j].element@ == e@);
            }
        }
        false
    }

    /// Adds `e` under a fresh add-tag of this node and returns the delta that
    /// describes it. `None`, with nothing changed, once the node's counter has
    /// run out.
    pub fn local_add(&mut self, e: &Element) -> (r: Option<Delta>)
        requires
            old(self).wf(),
        ensures
            final(self).wf(),
            final(self).node_id() == old(self).node_id(),
            r is None ==> final(self)@ == old(self)@,
            r is Some <==> old(self).can_stamp(),
            old(self).can_stamp_twice() ==> final(self).can_stamp(),
            r is Some ==> present(final(self)@, e@),
            r matches Some(d) ==> {
                &&& d.op == DeltaOp::Add
                &&& d.element@ == e@
                &&& d.tags@.len() == 1
                &&& d.tags@[0].node == old(self).node_id()
                &&& !nonce_used(old(self)@, d.tags@[0])
                &&& final(self)@ == merge_spec(old(self)@, d@)
            },
    {
        if self.exhausted || self.next_seq == u64::MAX {
            return None;
        }
        let n = Nonce { node: self.node, seq: self.next_seq };
        assert(!nonce_used(self@, n)) by {
            if nonce_used(self@, n) {
                let x = choose|x: ElementView| seen(self@, x, n);
                assert(n.seq < self.next_seq);
            }
        }
        let mut tags: Vec<Nonce> = Vec::new();
        tags.push(n);
        let d = Delta { op: DeltaOp::Add, element: e.clone(), tags };
        let ghost before = *self;
        assert(!seen(before@, e@, n));
        self.next_seq = self.next_seq + 1;
        insert_stamp(&mut self.adds, e, n);
        proof {
            assert forall|x: Nonce| d@.tags.contains(x) == (x == n) by {
                if x == n {
                    assert(d.tags@[0] == x);
                }
            }
            assert(stamps(d@) =~= set![(e@, n)]);
            assert(self@.adds =~= before@.adds + stamps(d@));
            assert forall|x: ElementView, m: Nonce| #[trigger] seen(self@, x, m) && m.node == self.node
                implies m.seq < self.next_seq by {
                if (x, m) != (e@, n) {
                    assert(seen(before@, x, m));
                }
            }
        }
        assert(self@.adds.contains((e@, n)) && !self@.tombs.contains((e@, n)));
        Some(d)
    }

    /// Tombstones every add-tag of `e` observed so far and returns the delta
    /// that carries exactly those tags.
    pub fn local_remove(&mut self, e: &Element) -> (r: Delta)
        requires
            old(self).wf(),
        ensures
            final(self).wf(),
            final(self).node_id() == old(self).node_id(),
            r.op == DeltaOp::Remove,
            r.element@ == e@,
            r@.tags == observed(old(self)@, e@),
            final(self)@ == merge_spec(old(self)@, r@),
            !present(final(self)@, e@),
    {
        let mut tags: Vec<Nonce> = Vec::new();
        let mut i: usize = 0;
        while i < self.adds.len()
            invariant
                i <= self.adds@.len(),
                forall|n: Nonce| tags@.contains(n) <==> exists|j: int|
                    0 <= j < i && #[trigger] self.adds@[j]@ == (e@, n),
            decreases self.adds@.len() - i,
        {
            let ghost before = tags@;
            if self.adds[i].element.same(e) {
                tags.push(self.adds[i].nonce);
                assert forall|n: Nonce| tags@.contains(n) <==> exists|j: int|
                    0 <= j < i + 1 && #[trigger] self.adds@[j]@ == (e@, n) by {
                    if tags@.contains(n) {
                        let k = choose|k: int| 0 <= k < tags@.len() && tags@[k] == n;
                        if k < before.len() {
                            assert(before.contains(n));
                        } else {
                            assert(self.adds@[i as int]@ == (e@, n));
                        }
                    }
                    if exists|j: int| 0 <= j < i + 1 && #[trigger] self.adds@[j]@ == (e@, n) {
                        let j = choose|j: int| 0 <= j < i + 1 && #[trigger] self.adds@[j]@ == (e@, n);
                        if j < i {
                            assert(before.contains(n));
                            let k = choose|k: int| 0 <= k < before.len() && before[k] == n;
                            assert(tags@[k] == n);
                        } else {
                            assert(tags@[before.len() as int] == n);
                        }
                    }
                }
            } else {
                assert forall|n: Nonce| tags@.contains(n) <==> exists|j: int|
                    0 <= j < i + 1 && #[trigger] self.adds@[j]@ == (e@, n) by {
                    if exists|j: int| 0 <= j < i + 1 && #[trigger] self.adds@[j]@ == (e@, n) {
                        let j = choose|j: int| 0 <= j < i + 1 && #[trigger] self.adds@[j]@ == (e@, n);
                        assert(j < i);
                    }
                }
            }
            i = i + 1;
        }
        let d = Delta { op: DeltaOp::Remove, element: e.clone(), tags };
        assert(d@.tags =~= observed(self@, e@));
        self.merge(&d);
        assert(!present(self@, e@)) by {
            if present(self@, e@) {
                let n = choose|n: Nonce| self@.adds.contains((e@, n)) && !self@.tombs.contains((e@, n));
                assert(d@.tags.contains(n));
                assert(stamps(d@).contains((e@, n)));
            }
        }
        d
    }

    /// The whole state as deltas: replayed on an empty replica they rebuild it.
    pub fn snapshot_deltas(&self) -> (r: Vec<Delta>)
        ensures
            replay(empty_view(), r@.map_values(|d: Delta| d@)) == self@,
    {
        let mut out: Vec<Delta> = Vec::new();
        proof {
            lemma_stamp_set_empty(self.adds@.subrange(0, 0));
            assert(out@.map_values(|d: Delta| d@).len() == 0);
        }
        let mut i: usize = 0;
        while i < self.adds.len()
            invariant
                i <= self.adds@.len(),
                replay(empty_view(), out@.map_values(|d: Delta| d@))
                    == (CatalogView { adds: stamp_set(self.adds@.subrange(0, i as int)), tombs: Set::empty() }),
            decreases self.adds@.len() - i,
        {
            self.push_stamp(&mut out, DeltaOp::Add, i, true);
            proof {
                assert(self.adds@.subrange(0, i + 1) =~= self.adds@.subrange(0, i as int).push(self.adds@[i as int]));
                lemma_stamp_set_push(self.adds@.subrange(0, i as int), self.adds@[i as int]);
                let dv = DeltaView { op: DeltaOp::Add, element: self.adds@[i as int].element@, tags: set![self.adds@[i as int].nonce] };
                assert(stamps(dv) =~= set![self.adds@[i as int]@]);
                assert(stamp_set(self.adds@.subrange(0, i + 1)) =~= stamp_set(self.adds@.subrange(0, i as int)) + stamps(dv));
            }
            i = i + 1;
        }
        assert(self.adds@.subrange(0, self.adds@.len() as int) =~= self.adds@);
        proof { lemma_stamp_set_empty(self.tombs@.subrange(0, 0)); }
        let mut k: usize = 0;
        while k < self.tombs.len()
            invariant
                k <= self.tombs@.len(),
                replay(empty_view(), out@.map_values(|d: Delta| d@))
                    == (CatalogView { adds: stamp_set(self.adds@), tombs: stamp_set(self.tombs@.subrange(0, k as int)) }),
            decreases self.tombs@.len() - k,
        {
            self.push_stamp(&mut out, DeltaOp::Remove, k, false);
            proof {
                assert(self.tombs@.subrange(0, k + 1) =~= self.tombs@.subrange(0, k as int).push(self.tombs@[k as int]));
                lemma_stamp_set_push(self.tombs@.subrange(0, k as int), self.tombs@[k as int]);
                let dv = DeltaView { op: DeltaOp::Remove, element: self.tombs@[k as int].element@, tags: set![self.tombs@[k as int].nonce] };
                assert(stamps(dv) =~= set![self.tombs@[k as int]@]);
                assert(stamp_set(self.tombs@.subrange(0, k + 1)) =~= stamp_set(self.tombs@.subrange(0, k as int)) + stamps(dv));
            }
            k = k + 1;
        }
        assert(self.tombs@.subrange(0, self.tombs@.len() as int) =~= self.tombs@);
        out
    }

    fn push_stamp(&self, out: &mut Vec<Delta>, op: DeltaOp, i: usize, from_adds: bool)
        requires
            from_adds ==> i < self.adds@.len() && op == DeltaOp::Add,
            !from_adds ==> i < self.tombs@.len() && op == DeltaOp::Remove,
        ensures
            from_adds ==> replay(empty_view(), final(out)@.map_values(|d: Delta| d@)) == merge_spec(
                replay(empty_view(), old(out)@.map_values(|d: Delta| d@)),
                DeltaView { op, element: self.adds@[i as int].element@, tags: set![self.adds@[i as int].nonce] },
            ),
            !from_adds ==> replay(empty_view(), final(out)@.map_values(|d: Delta| d@)) == merge_spec(
                replay(empty_view(), old(out)@.map_values(|d: Delta| d@)),
                DeltaView { op, element: self.tombs@[i as int].element@, tags: set![self.tombs@[i as int].nonce] },
            ),
    {
        let s = if from_adds { &self.adds[i] } else { &self.tombs[i] };
        let mut tags: Vec<Nonce> = Vec::new();
        tags.push(s.nonce);
        let d = Delta { op, element: s.element.clone(), tags };
        assert forall|x: Nonce| d@.tags.contains(x) == (x == s.nonce) by {
            if x == s.nonce {
                assert(d.tags@[0] == x);
            }
        }
        assert(d@.tags =~= set![s.nonce]);
        assert(stamps(d@) =~= set![(s.element@, s.nonce)]);
        let ghost before = out@;
        out.push(d);
        assert(out@.map_values(|d: Delta| d@).drop_last() =~= before.map_values(|d: Delta| d@));
    }
}

/// Applying two deltas in either order gives the same state.
pub proof fn lemma_merge_commutes(s: CatalogView, d1: DeltaView, d2: DeltaView)
    ensures
        merge_spec(merge_spec(s, d1), d2) == merge_spec(merge_spec(s, d2), d1),
{
    let a = merge_spec(merge_spec(s, d1), d2);
    let b = merge_spec(merge_spec(s, d2), d1);
    assert(a.adds =~= b.adds);
    assert(a.tombs =~= b.tombs);
}

/// Applying a delta a second time changes nothing.
pub proof fn lemma_merge_idempotent(s: CatalogView, d: DeltaView)
    ensures
        merge_spec(merge_spec(s, d), d) == merge_spec(s, d),
{
    let a = merge_spec(merge_spec(s, d), d);
    let b = merge_spec(s, d);
    assert(a.adds =~= b.adds);
    assert(a.tombs =~= b.tombs);
}

/// Add wins: when one node adds `e` under tag `t` and another concurrently
/// removes `e` without having observed `t`, `e` is present on both nodes once
/// each has applied both deltas, whichever it applied first.
pub proof fn lemma_add_wins(
    node_a: CatalogView,
    node_b: CatalogView,
    add: DeltaView,
    remove: DeltaView,
    t: Nonce,
)
    requires
        add.op == DeltaOp::Add,
        add.tags.contains(t),
        remove.op == DeltaOp::Remove,
        remove.element == add.element,
        !remove.tags.contains(t),
        !node_a.tombs.contains((add.element, t)),
        !node_b.tombs.contains((add.element, t)),
    ensures
        present(merge_spec(merge_spec(node_a, add), remove), add.element),
        present(merge_spec(merge_spec(node_b, remove), add), add.element),
{
    let e = add.element;
    assert(stamps(add).contains((e, t)));
    assert(!stamps(remove).contains((e, t)));
    let a = merge_spec(merge_spec(node_a, add), remove);
    let b = merge_spec(merge_spec(node_b, remove), add);
    assert(a.adds.contains((e, t)) && !a.tombs.contains((e, t)));
    assert(b.adds.contains((e, t)) && !b.tombs.contains((e, t)));
}

/// Applying an Add keeps every present element present.
pub proof fn lemma_add_keeps_present(s: CatalogView, d: DeltaView, x: ElementView)
    requires
        d.op == DeltaOp::Add,
        present(s, x),
    ensures
        present(merge_spec(s, d), x),
{
    let n = choose|n: Nonce| s.adds.contains((x, n)) && !s.tombs.contains((x, n));
    assert(merge_spec(s, d).adds.contains((x, n)));
}

} // verus!
