//! The access that a query declares: which components it reads and which it
//! writes, and when two declarations cannot stand in one query.

use vstd::prelude::*;
use crate::entity::Entity;
use crate::term::{Term, TermAccess, contains_id};

verus! {

/// The components that are read and those that are written.
pub struct AccessSets {
    pub reads: Set<Entity>,
    pub writes: Set<Entity>,
}

/// The components that the terms read.
pub open spec fn reads_of(terms: Seq<Term>) -> Set<Entity> {
    Set::new(
        |id: Entity|
            exists|i: int|
                0 <= i < terms.len() && (#[trigger] terms[i]).access == TermAccess::Read
                    && terms[i].id == Some(id),
    )
}

/// The components that the terms write.
pub open spec fn writes_of(terms: Seq<Term>) -> Set<Entity> {
    Set::new(
        |id: Entity|
            exists|i: int|
                0 <= i < terms.len() && (#[trigger] terms[i]).access == TermAccess::Write
                    && terms[i].id == Some(id),
    )
}

/// Whether every term that reads or writes names its component.
pub open spec fn terms_accessible(terms: Seq<Term>) -> bool {
    forall|i: int|
        0 <= i < terms.len() ==> (#[trigger] terms[i]).access == TermAccess::NoAccess
            || terms[i].id.is_some()
}

impl AccessSets {
    pub open spec fn empty() -> AccessSets {
        AccessSets { reads: Set::empty(), writes: Set::empty() }
    }

    /// The access of `self` together with that of `terms`.
    pub open spec fn with_terms(self, terms: Seq<Term>) -> AccessSets {
        AccessSets {
            reads: self.reads.union(reads_of(terms)),
            writes: self.writes.union(writes_of(terms)),
        }
    }

    /// Whether `term` cannot stand beside the access already declared: it
    /// writes what is read or written, or reads what is written.
    pub open spec fn conflicts_with(self, term: Term) -> bool {
        match term.access {
            TermAccess::NoAccess => false,
            TermAccess::Read => self.writes.contains(term.id.unwrap()),
            TermAccess::Write => self.writes.contains(term.id.unwrap()) || self.reads.contains(
                term.id.unwrap(),
            ),
        }
    }
}

/// What one more term adds to the components read and written.
pub proof fn lemma_access_step(terms: Seq<Term>, n: int)
    requires
        0 <= n < terms.len(),
    ensures
        reads_of(terms.take(n + 1)) == if terms[n].access == TermAccess::Read && terms[n].id.is_some() {
            reads_of(terms.take(n)).insert(terms[n].id.unwrap())
        } else {
            reads_of(terms.take(n))
        },
        writes_of(terms.take(n + 1)) == if terms[n].access == TermAccess::Write
            && terms[n].id.is_some() {
            writes_of(terms.take(n)).insert(terms[n].id.unwrap())
        } else {
            writes_of(terms.take(n))
        },
{
    let short = terms.take(n);
    let long = terms.take(n + 1);
    assert(long[n] == terms[n]);
    assert forall|id: Entity| #[trigger]
        reads_of(long).contains(id) <==> reads_of(short).contains(id) || (terms[n].access
            == TermAccess::Read && terms[n].id == Some(id)) by {
        if reads_of(long).contains(id) {
            let i = choose|i: int|
                0 <= i < long.len() && (#[trigger] long[i]).access == TermAccess::Read
                    && long[i].id == Some(id);
            if i < n {
                assert(short[i] == long[i]);
            }
        }
        if reads_of(short).contains(id) {
            let i = choose|i: int|
                0 <= i < short.len() && (#[trigger] short[i]).access == TermAccess::Read
                    && short[i].id == Some(id);
            assert(long[i] == short[i]);
        }
    }
    assert forall|id: Entity| #[trigger]
        writes_of(long).contains(id) <==> writes_of(short).contains(id) || (terms[n].access
            == TermAccess::Write && terms[n].id == Some(id)) by {
        if writes_of(long).contains(id) {
            let i = choose|i: int|
                0 <= i < long.len() && (#[trigger] long[i]).access == TermAccess::Write
                    && long[i].id == Some(id);
            if i < n {
                assert(short[i] == long[i]);
            }
        }
        if writes_of(short).contains(id) {
            let i = choose|i: int|
                0 <= i < short.len() && (#[trigger] short[i]).access == TermAccess::Write
                    && short[i].id == Some(id);
            assert(long[i] == short[i]);
        }
    }
    if terms[n].access == TermAccess::Read && terms[n].id.is_some() {
        assert(reads_of(long) =~= reads_of(short).insert(terms[n].id.unwrap()));
    } else {
        assert(reads_of(long) =~= reads_of(short));
    }
    if terms[n].access == TermAccess::Write && terms[n].id.is_some() {
        assert(writes_of(long) =~= writes_of(short).insert(terms[n].id.unwrap()));
    } else {
        assert(writes_of(long) =~= writes_of(short));
    }
}

/// The access that a query has declared so far.
pub struct Access {
    reads: Vec<Entity>,
    writes: Vec<Entity>,
}

impl View for Access {
    type V = AccessSets;

    closed spec fn view(&self) -> AccessSets {
        AccessSets { reads: self.reads@.to_set(), writes: self.writes@.to_set() }
    }
}

impl Access {
    /// No access.
    pub fn new() -> (a: Access)
        ensures
            a@ == AccessSets::empty(),
    {
        let a = Access { reads: Vec::new(), writes: Vec::new() };
        assert(a.reads@.to_set() =~= Set::empty());
        assert(a.writes@.to_set() =~= Set::empty());
        a
    }

    /// Whether `id` is read.
    pub fn has_read(&self, id: Entity) -> (b: bool)
        ensures
            b == self@.reads.contains(id),
    {
        contains_id(&self.reads, id)
    }

    /// Whether `id` is written.
    pub fn has_write(&self, id: Entity) -> (b: bool)
        ensures
            b == self@.writes.contains(id),
    {
        contains_id(&self.writes, id)
    }

    /// Declares that `id` is read.
    pub fn add_read(&mut self, id: Entity)
        ensures
            final(self)@.reads == old(self)@.reads.insert(id),
            final(self)@.writes == old(self)@.writes,
    {
        if !contains_id(&self.reads, id) {
            self.reads.push(id);
        }
        proof {
            assert forall|other: Entity|
                self.reads@.contains(other) <==> old(self).reads@.contains(other) || other
                    == id by {
                if self.reads@.contains(other) {
                    let i = choose|i: int| 0 <= i < self.reads@.len() && self.reads@[i] == other;
                    if i < old(self).reads@.len() {
                        assert(old(self).reads@[i] == other);
                    }
                }
                if old(self).reads@.contains(other) {
                    let i = choose|i: int|
                        0 <= i < old(self).reads@.len() && old(self).reads@[i] == other;
                    assert(self.reads@[i] == other);
                }
                if other == id && !old(self).reads@.contains(id) {
                    assert(self.reads@[self.reads@.len() - 1] == id);
                }
            }
            assert(self.reads@.to_set() =~= old(self).reads@.to_set().insert(id));
        }
    }

    /// Declares that `id` is written.
    pub fn add_write(&mut self, id: Entity)
        ensures
            final(self)@.writes == old(self)@.writes.insert(id),
            final(self)@.reads == old(self)@.reads,
    {
        if !contains_id(&self.writes, id) {
            self.writes.push(id);
        }
        proof {
            assert forall|other: Entity|
                self.writes@.contains(other) <==> old(self).writes@.contains(other) || other
                    == id by {
                if self.writes@.contains(other) {
                    let i = choose|i: int| 0 <= i < self.writes@.len() && self.writes@[i] == other;
                    if i < old(self).writes@.len() {
                        assert(old(self).writes@[i] == other);
                    }
                }
                if old(self).writes@.contains(other) {
                    let i = choose|i: int|
                        0 <= i < old(self).writes@.len() && old(self).writes@[i] == other;
                    assert(self.writes@[i] == other);
                }
                if other == id && !old(self).writes@.contains(id) {
                    assert(self.writes@[self.writes@.len() - 1] == id);
                }
            }
            assert(self.writes@.to_set() =~= old(self).writes@.to_set().insert(id));
        }
    }

    /// Declares the access of `term`.
    pub fn add_term(&mut self, term: &Term)
        requires
            term.access == TermAccess::NoAccess || term.id.is_some(),
        ensures
            final(self)@.reads == if term.access == TermAccess::Read {
                old(self)@.reads.insert(term.id.unwrap())
            } else {
                old(self)@.reads
            },
            final(self)@.writes == if term.access == TermAccess::Write {
                old(self)@.writes.insert(term.id.unwrap())
            } else {
                old(self)@.writes
            },
    {
        match term.access {
            TermAccess::NoAccess => {},
            TermAccess::Read => {
                self.add_read(term.id());
            },
            TermAccess::Write => {
                self.add_write(term.id());
            },
        }
    }

    /// Whether `term` cannot stand beside the access declared so far.
    pub fn conflicts_with(&self, term: &Term) -> (b: bool)
        requires
            term.access == TermAccess::NoAccess || term.id.is_some(),
        ensures
            b == self@.conflicts_with(*term),
    {
        match term.access {
            TermAccess::NoAccess => false,
            TermAccess::Read => self.has_write(term.id()),
            TermAccess::Write => self.has_write(term.id()) || self.has_read(term.id()),
        }
    }

    /// Declares the access of each of `terms`. The result is the union of
    /// what was declared before and what the terms read and write.
    pub fn add_terms(&mut self, terms: &Vec<Term>)
        requires
            terms_accessible(terms@),
        ensures
            final(self)@ == old(self)@.with_terms(terms@),
    {
        let mut i: usize = 0;
        proof {
            assert(reads_of(terms@.take(0)) =~= Set::empty());
            assert(writes_of(terms@.take(0)) =~= Set::empty());
            assert(self@.reads.union(Set::empty()) =~= self@.reads);
            assert(self@.writes.union(Set::empty()) =~= self@.writes);
        }
        while i < terms.len()
            invariant
                i <= terms.len(),
                terms_accessible(terms@),
                self@.reads == old(self)@.reads.union(reads_of(terms@.take(i as int))),
                self@.writes == old(self)@.writes.union(writes_of(terms@.take(i as int))),
            decreases terms.len() - i,
        {
            proof {
                lemma_access_step(terms@, i as int);
            }
            let ghost before = self@;
            match terms[i].access {
                TermAccess::NoAccess => {},
                TermAccess::Read => {
                    self.add_read(terms[i].id());
                },
                TermAccess::Write => {
                    self.add_write(terms[i].id());
                },
            }
            proof {
                assert(self@.reads =~= old(self)@.reads.union(reads_of(terms@.take(i + 1))));
                assert(self@.writes =~= old(self)@.writes.union(writes_of(terms@.take(i + 1))));
            }
            i = i + 1;
        }
        proof {
            assert(terms@.take(terms.len() as int) =~= terms@);
        }
    }
}

} // verus!
