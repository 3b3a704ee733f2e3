//! Per-mode key bindings: a table from (mode, key sequence) to command,
//! with the prefix/ambiguity classification the chord parser consults.

use vstd::prelude::*;
use crate::command::Command;
use crate::keys::{keys_eq, Key};
use crate::mode::Mode;

verus! {

pub struct Binding {
    pub mode: Mode,
    pub keys: Vec<Key>,
    pub cmd: Command,
}

/// How a pending key sequence relates to the table: fires now, fires but a
/// longer binding shares the prefix, is a strict prefix of some binding, or
/// matches nothing.
#[derive(Clone, Copy, PartialEq, Eq, Structural, Debug)]
pub enum LookupKind {
    CompleteUnique,
    CompleteExtensible,
    Prefix,
    NoMatch,
}

pub struct KeyBindingTable {
    items: Vec<Binding>,
}

/// Is `a` a strictly shorter prefix of `b`?
fn is_strict_prefix(a: &[Key], b: &[Key]) -> (r: bool)
    ensures
        r == (a@.len() < b@.len() && a@.is_prefix_of(b@)),
{
    if a.len() >= b.len() {
        return false;
    }
    let n = a.len();
    let mut i: usize = 0;
    while i < n
        invariant
            n == a@.len(),
            a@.len() < b@.len(),
            i <= n,
            forall|j: int| 0 <= j < i ==> a@[j] == b@[j],
        decreases n - i,
    {
        if a[i] != b[i] {
            proof {
                assert(a@[i as int] != b@.subrange(0, a@.len() as int)[i as int]);
            }
            return false;
        }
        i = i + 1;
    }
    proof {
        assert(a@ =~= b@.subrange(0, a@.len() as int));
    }
    true
}

/// Chord resolution is deterministic: what a key sequence resolves to is a
/// function of the binding table's contents and the sequence alone, so two
/// tables holding the same bindings classify every sequence alike.
pub proof fn lemma_classify_deterministic(
    t1: KeyBindingTable,
    t2: KeyBindingTable,
    m: Mode,
    ks: Seq<Key>,
)
    requires
        t1.entries() == t2.entries(),
    ensures
        t1.spec_classify(m, ks) == t2.spec_classify(m, ks),
{
    assert(t1.binds(m, ks) == t2.binds(m, ks)) by {
        if t1.binds(m, ks) {
            let w = choose|w: int| 0 <= w < t1.entries().len() && (#[trigger] t1.entry_at(
                w,
            )).mode == m && t1.entry_at(w).keys@ == ks;
            assert(t2.entry_at(w).mode == m && t2.entry_at(w).keys@ == ks);
        }
        if t2.binds(m, ks) {
            let w = choose|w: int| 0 <= w < t2.entries().len() && (#[trigger] t2.entry_at(
                w,
            )).mode == m && t2.entry_at(w).keys@ == ks;
            assert(t1.entry_at(w).mode == m && t1.entry_at(w).keys@ == ks);
        }
    }
    assert(t1.has_extension(m, ks) == t2.has_extension(m, ks)) by {
        if t1.has_extension(m, ks) {
            let w = choose|w: int| 0 <= w < t1.entries().len() && (#[trigger] t1.entry_at(
                w,
            )).mode == m && ks.len() < t1.entry_at(w).keys@.len() && ks.is_prefix_of(
                t1.entry_at(w).keys@,
            );
            assert(t2.entry_at(w).mode == m && ks.len() < t2.entry_at(w).keys@.len()
                && ks.is_prefix_of(t2.entry_at(w).keys@));
        }
        if t2.has_extension(m, ks) {
            let w = choose|w: int| 0 <= w < t2.entries().len() && (#[trigger] t2.entry_at(
                w,
            )).mode == m && ks.len() < t2.entry_at(w).keys@.len() && ks.is_prefix_of(
                t2.entry_at(w).keys@,
            );
            assert(t1.entry_at(w).mode == m && ks.len() < t1.entry_at(w).keys@.len()
                && ks.is_prefix_of(t1.entry_at(w).keys@));
        }
    }
}

impl KeyBindingTable {
    pub closed spec fn entries(self) -> Seq<Binding> {
        self.items@
    }

    pub open spec fn entry_at(self, i: int) -> Binding {
        self.entries()[i]
    }

    /// No two entries bind the same sequence in the same mode.
    pub open spec fn wf(self) -> bool {
        forall|i: int, j: int| 0 <= i < j < self.entries().len() ==> !((#[trigger] self.entry_at(
            i,
        )).mode == (#[trigger] self.entry_at(j)).mode && self.entry_at(i).keys@ == self.entry_at(
            j,
        ).keys@)
    }

    /// Some entry binds exactly this sequence in this mode.
    pub open spec fn binds(self, m: Mode, ks: Seq<Key>) -> bool {
        exists|i: int| 0 <= i < self.entries().len() && (#[trigger] self.entry_at(i)).mode == m
            && self.entry_at(i).keys@ == ks
    }

    /// The command bound to this sequence (meaningful when `binds` holds;
    /// unique under `wf`).
    pub open spec fn bound_cmd(self, m: Mode, ks: Seq<Key>) -> Command {
        let i = choose|i: int| 0 <= i < self.entries().len() && (#[trigger] self.entry_at(
            i,
        )).mode == m && self.entry_at(i).keys@ == ks;
        self.entry_at(i).cmd
    }

    /// Some longer binding in this mode starts with this sequence.
    pub open spec fn has_extension(self, m: Mode, ks: Seq<Key>) -> bool {
        exists|i: int| 0 <= i < self.entries().len() && (#[trigger] self.entry_at(i)).mode == m
            && ks.len() < self.entry_at(i).keys@.len() && ks.is_prefix_of(self.entry_at(i).keys@)
    }

    /// The resolution of a pending sequence, determined by the table alone.
    pub open spec fn spec_classify(self, m: Mode, ks: Seq<Key>) -> LookupKind {
        if self.binds(m, ks) {
            if self.has_extension(m, ks) {
                LookupKind::CompleteExtensible
            } else {
                LookupKind::CompleteUnique
            }
        } else if self.has_extension(m, ks) {
            LookupKind::Prefix
        } else {
            LookupKind::NoMatch
        }
    }

    pub fn new() -> (t: KeyBindingTable)
        ensures
            t.wf(),
            t.entries().len() == 0,
            forall|m: Mode, ks: Seq<Key>| !(#[trigger] t.binds(m, ks)),
            forall|m: Mode, ks: Seq<Key>| !(#[trigger] t.has_extension(m, ks)),
    {
        KeyBindingTable { items: Vec::new() }
    }

    pub fn len(&self) -> (n: usize)
        ensures
            n == self.entries().len(),
    {
        self.items.len()
    }

    /// Classify a pending key sequence against the table.
    pub fn classify(&self, m: Mode, ks: &[Key]) -> (r: LookupKind)
        ensures
            r == self.spec_classify(m, ks@),
    {
        let n = self.items.len();
        let mut found_exact = false;
        let mut found_ext = false;
        let mut i: usize = 0;
        while i < n
            invariant
                n == self.entries().len(),
                i <= n,
                found_exact == exists|j: int| 0 <= j < i && (#[trigger] self.entry_at(j)).mode
                    == m && self.entry_at(j).keys@ == ks@,
                found_ext == exists|j: int| 0 <= j < i && (#[trigger] self.entry_at(j)).mode == m
                    && ks@.len() < self.entry_at(j).keys@.len() && ks@.is_prefix_of(
                    self.entry_at(j).keys@,
                ),
            decreases n - i,
        {
            let e = &self.items[i];
            if e.mode == m {
                if keys_eq(e.keys.as_slice(), ks) {
                    found_exact = true;
                    proof {
                        assert((#[trigger] self.entry_at(i as int)).mode == m && self.entry_at(
                            i as int,
                        ).keys@ == ks@);
                    }
                } else if is_strict_prefix(ks, e.keys.as_slice()) {
                    found_ext = true;
                    proof {
                        assert((#[trigger] self.entry_at(i as int)).mode == m && ks@.len()
                            < self.entry_at(i as int).keys@.len() && ks@.is_prefix_of(
                            self.entry_at(i as int).keys@,
                        ));
                    }
                } else {
                    proof {
                        assert(self.entry_at(i as int).keys@ != ks@);
                        assert(!(ks@.len() < self.entry_at(i as int).keys@.len()
                            && ks@.is_prefix_of(self.entry_at(i as int).keys@)));
                    }
                }
            } else {
                proof {
                    assert(self.entry_at(i as int).mode != m);
                }
            }
            i = i + 1;
        }
        if found_exact {
            if found_ext {
                LookupKind::CompleteExtensible
            } else {
                LookupKind::CompleteUnique
            }
        } else if found_ext {
            LookupKind::Prefix
        } else {
            LookupKind::NoMatch
        }
    }

    /// Find the entry binding this exact sequence in this mode, if any.
    pub fn find(&self, m: Mode, ks: &[Key]) -> (r: Option<usize>)
        ensures
            match r {
                Some(i) => {
                    &&& self.binds(m, ks@)
                    &&& i < self.entries().len()
                    &&& self.entry_at(i as int).mode == m
                    &&& self.entry_at(i as int).keys@ == ks@
                    &&& self.wf() ==> self.entry_at(i as int).cmd == self.bound_cmd(m, ks@)
                },
                None => !self.binds(m, ks@),
            },
    {
        let n = self.items.len();
        let mut i: usize = 0;
        while i < n
            invariant
                n == self.entries().len(),
                i <= n,
                forall|j: int| 0 <= j < i ==> !((#[trigger] self.entry_at(j)).mode == m
                    && self.entry_at(j).keys@ == ks@),
            decreases n - i,
        {
            let e = &self.items[i];
            if e.mode == m && keys_eq(e.keys.as_slice(), ks) {
                proof {
                    if self.wf() {
                        let w = choose|w: int| 0 <= w < self.entries().len() && (
                        #[trigger] self.entry_at(w)).mode == m && self.entry_at(w).keys@ == ks@;
                        if w < i {
                            assert(!(self.entry_at(w).mode == self.entry_at(i as int).mode
                                && self.entry_at(w).keys@ == self.entry_at(i as int).keys@));
                        }
                        if i < w {
                            assert(!(self.entry_at(i as int).mode == self.entry_at(w).mode
                                && self.entry_at(i as int).keys@ == self.entry_at(w).keys@));
                        }
                        assert(w == i);
                    }
                }
                return Some(i);
            }
            i = i + 1;
        }
        None
    }

    /// The command of entry `i`.
    pub fn cmd_at(&self, i: usize) -> (c: &Command)
        requires
            i < self.entries().len(),
        ensures
            *c == self.entry_at(i as int).cmd,
    {
        &self.items[i].cmd
    }

    /// Bind `keys` to `cmd` in mode `m`, replacing any binding the same
    /// sequence already has in that mode.
    pub fn bind(&mut self, m: Mode, keys: Vec<Key>, cmd: Command)
        requires
            old(self).wf(),
        ensures
            final(self).wf(),
            final(self).binds(m, keys@),
            final(self).bound_cmd(m, keys@) == cmd,
            forall|m2: Mode, ks2: Seq<Key>| !(m2 == m && ks2 == keys@) ==> #[trigger] final(self).binds(m2, ks2) == old(self).binds(m2, ks2),
            forall|m2: Mode, ks2: Seq<Key>| !(m2 == m && ks2 == keys@) && old(self).binds(
                m2,
                ks2,
            ) ==> #[trigger] final(self).bound_cmd(m2, ks2) == old(self).bound_cmd(m2, ks2),
            forall|m2: Mode, ks2: Seq<Key>| #[trigger] final(self).has_extension(m2, ks2)
                == (old(self).has_extension(m2, ks2) || (m2 == m && ks2.len() < keys@.len()
                && ks2.is_prefix_of(keys@))),
    {
        let n = self.items.len();
        let mut i: usize = 0;
        while i < n
            invariant
                old(self).wf(),
                *self == *old(self),
                n == self.entries().len(),
                i <= n,
                forall|j: int| 0 <= j < i ==> !((#[trigger] old(self).entry_at(j)).mode == m
                    && old(self).entry_at(j).keys@ == keys@),
            decreases n - i,
        {
            let hit = self.items[i].mode == m && keys_eq(self.items[i].keys.as_slice(),
                keys.as_slice());
            if hit {
                let e = &mut self.items[i];
                e.cmd = cmd;
                proof {
                    let ls = old(self).entries();
                    let ls2 = self.entries();
                    assert(ls2 =~= ls.update(i as int, ls2[i as int]));
                    assert(ls2[i as int].mode == m && ls2[i as int].keys@ == keys@);
                    assert(ls[i as int].mode == m && ls[i as int].keys@ == keys@);
                    assert(forall|j: int| 0 <= j < ls2.len() && j != i ==> ls2[j] == ls[j]);
                    assert(self.wf()) by {
                        assert forall|a: int, b: int| 0 <= a < b < ls2.len() implies !((
                        #[trigger] self.entry_at(a)).mode == (#[trigger] self.entry_at(b)).mode
                            && self.entry_at(a).keys@ == self.entry_at(b).keys@) by {
                            assert(ls2[a].mode == ls[a].mode && ls2[a].keys@ == ls[a].keys@);
                            assert(ls2[b].mode == ls[b].mode && ls2[b].keys@ == ls[b].keys@);
                            assert(!(old(self).entry_at(a).mode == old(self).entry_at(b).mode
                                && old(self).entry_at(a).keys@ == old(self).entry_at(b).keys@));
                        }
                    }
                    assert forall|m2: Mode, ks2: Seq<Key>| !(m2 == m && ks2 == keys@) implies
                        #[trigger] self.binds(m2, ks2) == old(self).binds(m2, ks2) by {
                        if old(self).binds(m2, ks2) {
                            let w = choose|w: int| 0 <= w < ls.len() && (#[trigger] old(self).entry_at(w)).mode == m2 && old(self).entry_at(w).keys@ == ks2;
                            assert(w != i);
                            assert(self.entry_at(w).mode == m2 && self.entry_at(w).keys@ == ks2);
                        }
                        if self.binds(m2, ks2) {
                            let w = choose|w: int| 0 <= w < ls2.len() && (#[trigger] self.entry_at(
                                w,
                            )).mode == m2 && self.entry_at(w).keys@ == ks2;
                            assert(w != i);
                            assert(old(self).entry_at(w).mode == m2 && old(self).entry_at(w).keys@
                                == ks2);
                        }
                    }
                    assert forall|m2: Mode, ks2: Seq<Key>| !(m2 == m && ks2 == keys@) && old(self).binds(m2, ks2) implies #[trigger] final(self).bound_cmd(m2, ks2) == old(self).bound_cmd(m2, ks2) by {
                        let w1 = choose|w: int| 0 <= w < ls2.len() && (#[trigger] self.entry_at(
                            w,
                        )).mode == m2 && self.entry_at(w).keys@ == ks2;
                        let w2 = choose|w: int| 0 <= w < ls.len() && (#[trigger] old(self).entry_at(w)).mode == m2 && old(self).entry_at(w).keys@ == ks2;
                        assert(self.entry_at(w1).mode == m2 && self.entry_at(w1).keys@ == ks2);
                        assert(w1 != i && w2 != i);
                        assert(self.entry_at(w2).mode == m2 && self.entry_at(w2).keys@ == ks2);
                        if w1 < w2 {
                            assert(!(self.entry_at(w1).mode == self.entry_at(w2).mode
                                && self.entry_at(w1).keys@ == self.entry_at(w2).keys@));
                        }
                        if w2 < w1 {
                            assert(!(self.entry_at(w2).mode == self.entry_at(w1).mode
                                && self.entry_at(w2).keys@ == self.entry_at(w1).keys@));
                        }
                        assert(w1 == w2);
                    }
                    assert(final(self).bound_cmd(m, keys@) == cmd) by {
                        let w = choose|w: int| 0 <= w < ls2.len() && (#[trigger] self.entry_at(
                            w,
                        )).mode == m && self.entry_at(w).keys@ == keys@;
                        if w < i {
                            assert(!(self.entry_at(w).mode == self.entry_at(i as int).mode
                                && self.entry_at(w).keys@ == self.entry_at(i as int).keys@));
                        }
                        if i < w {
                            assert(!(self.entry_at(i as int).mode == self.entry_at(w).mode
                                && self.entry_at(i as int).keys@ == self.entry_at(w).keys@));
                        }
                        assert(w == i);
                    }
                    assert forall|m2: Mode, ks2: Seq<Key>| #[trigger] self.has_extension(m2, ks2)
                        == (old(self).has_extension(m2, ks2) || (m2 == m && ks2.len()
                        < keys@.len() && ks2.is_prefix_of(keys@))) by {
                        if self.has_extension(m2, ks2) {
                            let w = choose|w: int| 0 <= w < ls2.len() && (#[trigger] self.entry_at(
                                w,
                            )).mode == m2 && ks2.len() < self.entry_at(w).keys@.len()
                                && ks2.is_prefix_of(self.entry_at(w).keys@);
                            assert(old(self).entry_at(w).keys@ == self.entry_at(w).keys@);
                            assert(old(self).has_extension(m2, ks2));
                        }
                        if old(self).has_extension(m2, ks2) {
                            let w = choose|w: int| 0 <= w < ls.len() && (#[trigger] old(self).entry_at(w)).mode == m2 && ks2.len() < old(self).entry_at(
                                w,
                            ).keys@.len() && ks2.is_prefix_of(old(self).entry_at(w).keys@);
                            assert(self.entry_at(w).keys@ == old(self).entry_at(w).keys@);
                            assert(self.has_extension(m2, ks2));
                        }
                        if m2 == m && ks2.len() < keys@.len() && ks2.is_prefix_of(keys@) {
                            assert(self.entry_at(i as int).mode == m2);
                            assert(self.has_extension(m2, ks2));
                        }
                    }
                }
                return ;
            }
            i = i + 1;
        }
        let ghost ls = old(self).entries();
        self.items.push(Binding { mode: m, keys, cmd });
        proof {
            let ls2 = self.entries();
            assert(ls2 =~= ls.push(ls2[ls.len() as int]));
            assert(ls2.len() == ls.len() + 1);
            assert(forall|j: int| 0 <= j < ls.len() ==> ls2[j] == ls[j]);
            let ni = ls.len() as int;
            assert(ls2[ni].mode == m && ls2[ni].keys@ == keys@ && ls2[ni].cmd == cmd);
            assert(final(self).wf()) by {
                assert forall|i2: int, j2: int| 0 <= i2 < j2 < ls2.len() implies !((
                #[trigger] self.entry_at(i2)).mode == (#[trigger] self.entry_at(j2)).mode
                    && self.entry_at(i2).keys@ == self.entry_at(j2).keys@) by {
                    if j2 == ni {
                        assert(ls2[i2] == ls[i2]);
                        assert(!(old(self).entry_at(i2).mode == m && old(self).entry_at(
                            i2,
                        ).keys@ == keys@));
                    } else {
                        assert(ls2[i2] == ls[i2] && ls2[j2] == ls[j2]);
                        assert(!(old(self).entry_at(i2).mode == old(self).entry_at(j2).mode
                            && old(self).entry_at(i2).keys@ == old(self).entry_at(j2).keys@));
                    }
                }
            }
            assert(final(self).binds(m, keys@)) by {
                assert(self.entry_at(ni).mode == m && self.entry_at(ni).keys@ == keys@);
            }
            assert forall|m2: Mode, ks2: Seq<Key>| !(m2 == m && ks2 == keys@) implies #[trigger]
                self.binds(m2, ks2) == old(self).binds(m2, ks2) by {
                if old(self).binds(m2, ks2) {
                    let w = choose|w: int| 0 <= w < ls.len() && (#[trigger] old(self).entry_at(
                        w,
                    )).mode == m2 && old(self).entry_at(w).keys@ == ks2;
                    assert(self.entry_at(w).mode == m2 && self.entry_at(w).keys@ == ks2);
                }
                if self.binds(m2, ks2) {
                    let w = choose|w: int| 0 <= w < ls2.len() && (#[trigger] self.entry_at(
                        w,
                    )).mode == m2 && self.entry_at(w).keys@ == ks2;
                    assert(w != ni);
                    assert(old(self).entry_at(w).mode == m2 && old(self).entry_at(w).keys@
                        == ks2);
                }
            }
            assert(final(self).bound_cmd(m, keys@) == cmd) by {
                let w = choose|w: int| 0 <= w < ls2.len() && (#[trigger] self.entry_at(
                    w,
                )).mode == m && self.entry_at(w).keys@ == keys@;
                if w < ni {
                    assert(ls2[w] == ls[w]);
                    assert(!(old(self).entry_at(w).mode == m && old(self).entry_at(w).keys@
                        == keys@));
                }
                assert(w == ni);
            }
            assert forall|m2: Mode, ks2: Seq<Key>| !(m2 == m && ks2 == keys@) && old(self).binds(
                m2,
                ks2,
            ) implies #[trigger] final(self).bound_cmd(m2, ks2) == old(self).bound_cmd(
                m2,
                ks2,
            ) by {
                let w1 = choose|w: int| 0 <= w < ls2.len() && (#[trigger] self.entry_at(
                    w,
                )).mode == m2 && self.entry_at(w).keys@ == ks2;
                let w2 = choose|w: int| 0 <= w < ls.len() && (#[trigger] old(self).entry_at(
                    w,
                )).mode == m2 && old(self).entry_at(w).keys@ == ks2;
                assert(self.entry_at(w2).mode == m2 && self.entry_at(w2).keys@ == ks2);
                assert(self.entry_at(w1).mode == m2 && self.entry_at(w1).keys@ == ks2);
                assert(w1 != ni);
                if w1 < w2 {
                    assert(!(self.entry_at(w1).mode == self.entry_at(w2).mode && self.entry_at(
                        w1,
                    ).keys@ == self.entry_at(w2).keys@));
                }
                if w2 < w1 {
                    assert(!(self.entry_at(w2).mode == self.entry_at(w1).mode && self.entry_at(
                        w2,
                    ).keys@ == self.entry_at(w1).keys@));
                }
                assert(w1 == w2);
            }
            assert forall|m2: Mode, ks2: Seq<Key>| #[trigger] self.has_extension(m2, ks2) == (old(self).has_extension(m2, ks2) || (m2 == m && ks2.len() < keys@.len()
                && ks2.is_prefix_of(keys@))) by {
                if self.has_extension(m2, ks2) {
                    let w = choose|w: int| 0 <= w < ls2.len() && (#[trigger] self.entry_at(
                        w,
                    )).mode == m2 && ks2.len() < self.entry_at(w).keys@.len()
                        && ks2.is_prefix_of(self.entry_at(w).keys@);
                    if w != ni {
                        assert(self.entry_at(w) == old(self).entry_at(w));
                        assert(old(self).entry_at(w).mode == m2 && ks2.len() < old(
                            self,
                        ).entry_at(w).keys@.len() && ks2.is_prefix_of(old(self).entry_at(
                            w,
                        ).keys@));
                        assert(old(self).has_extension(m2, ks2));
                    }
                }
                if old(self).has_extension(m2, ks2) {
                    let w = choose|w: int| 0 <= w < ls.len() && (#[trigger] old(self).entry_at(
                        w,
                    )).mode == m2 && ks2.len() < old(self).entry_at(w).keys@.len()
                        && ks2.is_prefix_of(old(self).entry_at(w).keys@);
                    assert(self.entry_at(w).mode == m2 && ks2.len() < self.entry_at(
                        w,
                    ).keys@.len() && ks2.is_prefix_of(self.entry_at(w).keys@));
                }
                if m2 == m && ks2.len() < keys@.len() && ks2.is_prefix_of(keys@) {
                    assert(self.entry_at(ni).mode == m2 && ks2.len() < self.entry_at(
                        ni,
                    ).keys@.len() && ks2.is_prefix_of(self.entry_at(ni).keys@));
                }
            }
        }
    }
}

} // verus!
