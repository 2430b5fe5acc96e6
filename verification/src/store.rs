//! The pattern store: the session's name-keyed template collection with
//! lookup, insertion, deletion, the save filter and the merge rule for
//! templates loaded from persistence.

use crate::pattern::{same_pattern, Dir, Pattern};
use vstd::prelude::*;

verus! {

/// The built-in template names, in store order.
pub open spec fn builtin_names() -> Seq<Seq<char>> {
    seq![
        "1x1"@,
        "2x2"@,
        "glider"@,
        "blinker"@,
        "toad"@,
        "beacon"@,
        "LWSS"@,
        "R-Pentomino"@,
        "face"@,
        "Gosper Glider Gun"@,
    ]
}

/// Some pattern in the sequence bears this name.
pub open spec fn contains_name(s: Seq<Pattern>, name: Seq<char>) -> bool {
    exists|i: int| 0 <= i < s.len() && #[trigger] s[i].name@ == name
}

/// The index of the pattern bearing this name (unique under `SavedPatterns`
/// well-formedness).
pub open spec fn index_of_name(s: Seq<Pattern>, name: Seq<char>) -> int {
    choose|i: int| 0 <= i < s.len() && #[trigger] s[i].name@ == name
}

/// The patterns worth persisting: those not marked temporary, order kept.
pub open spec fn savable(s: Seq<Pattern>) -> Seq<Pattern>
    decreases s.len(),
{
    if s.len() == 0 {
        Seq::empty()
    } else {
        let rest = savable(s.drop_last());
        if s.last().is_temp {
            rest
        } else {
            rest.push(s.last())
        }
    }
}

/// What loading one pattern does to the store: a new name is added; a known
/// name replaces its pattern, unless that pattern is a built-in (not
/// deletable), which a loaded one never overwrites.
pub open spec fn merge_one(s: Seq<Pattern>, p: Pattern) -> Seq<Pattern> {
    if !contains_name(s, p.name@) {
        s.push(p)
    } else if !s[index_of_name(s, p.name@)].deletable {
        s
    } else {
        s.update(index_of_name(s, p.name@), p)
    }
}

/// What loading the first `n` patterns does to the store, in order.
pub open spec fn merge_upto(s: Seq<Pattern>, loaded: Seq<Pattern>, n: int) -> Seq<Pattern>
    decreases n,
{
    if n <= 0 {
        s
    } else {
        merge_one(merge_upto(s, loaded, n - 1), loaded[n - 1])
    }
}

/// The name of the pattern currently selected for stamping.
pub struct SelectedPattern(pub String);

/// The built-in templates' offsets, by store index.
pub open spec fn builtin_cells(i: int) -> Seq<(i32, i32)> {
    if i == 0 {
        seq![(0, 0)]
    } else if i == 1 {
        seq![(0, 0), (1, 0), (0, 1), (1, 1)]
    } else if i == 2 {
        seq![(1, 0), (2, 1), (0, 2), (1, 2), (2, 2)]
    } else if i == 3 {
        seq![(0, 1), (1, 1), (2, 1)]
    } else if i == 4 {
        seq![(0, 1), (1, 1), (2, 1), (1, 2), (2, 2)]
    } else if i == 5 {
        seq![(0, 0), (1, 0), (0, 1), (2, 2), (2, 3), (3, 3)]
    } else if i == 6 {
        seq![(1, 0), (4, 0), (0, 1), (0, 2), (4, 2), (0, 3), (1, 3), (2, 3), (3, 3)]
    } else if i == 7 {
        seq![(2, 1), (1, 2), (2, 2), (2, 3), (3, 3)]
    } else if i == 8 {
        seq![
            (3, 2),
            (2, 3),
            (4, 3),
            (1, 4),
            (3, 4),
            (5, 4),
            (1, 5),
            (2, 5),
            (4, 5),
            (5, 5),
            (1, 6),
            (5, 6),
        ]
    } else {
        seq![
            (15, 7),
            (16, 7),
            (14, 8),
            (18, 8),
            (13, 9),
            (19, 9),
            (27, 9),
            (3, 10),
            (4, 10),
            (13, 10),
            (17, 10),
            (19, 10),
            (20, 10),
            (25, 10),
            (27, 10),
            (3, 11),
            (4, 11),
            (13, 11),
            (19, 11),
            (23, 11),
            (24, 11),
            (14, 12),
            (18, 12),
            (23, 12),
            (24, 12),
            (37, 12),
            (38, 12),
            (15, 13),
            (16, 13),
            (23, 13),
            (24, 13),
            (37, 13),
            (38, 13),
            (25, 14),
            (27, 14),
            (27, 15),
        ]
    }
}

/// The built-in templates' shipped headings, by store index.
pub open spec fn builtin_dir(i: int) -> Dir {
    if i == 2 {
        Dir::NE
    } else if i == 4 {
        Dir::S
    } else if i == 5 {
        Dir::SW
    } else if i == 6 || i == 7 {
        Dir::W
    } else if i == 9 {
        Dir::SE
    } else {
        Dir::Any
    }
}

/// The named patterns of a session. Names are unique keys; built-in patterns
/// are never deletable.
pub struct SavedPatterns {
    pub patterns: Vec<Pattern>,
}

impl SavedPatterns {
    /// Well-formed: names are unique and every template is well-formed.
    pub open spec fn wf(self) -> bool {
        &&& forall|i: int, j: int|
            0 <= i < j < self.patterns@.len() ==> (#[trigger] self.patterns@[i]).name@ != (
            #[trigger] self.patterns@[j]).name@
        &&& forall|i: int| 0 <= i < self.patterns@.len() ==> (#[trigger] self.patterns@[i]).wf()
    }

    /// An empty store.
    pub fn new() -> (r: SavedPatterns)
        ensures
            r.wf(),
            r.patterns@.len() == 0,
    {
        SavedPatterns { patterns: Vec::new() }
    }

    /// The position of the pattern bearing `name`, if any.
    pub fn index_of(&self, name: &String) -> (r: Option<usize>)
        requires
            self.wf(),
        ensures
            r matches Some(idx) ==> idx < self.patterns@.len() && self.patterns@[idx as int].name@
                == name@ && index_of_name(self.patterns@, name@) == idx as int,
            r is None ==> !contains_name(self.patterns@, name@),
    {
        let mut i: usize = 0;
        while i < self.patterns.len()
            invariant
                self.wf(),
                0 <= i <= self.patterns@.len(),
                forall|j: int| 0 <= j < i ==> (#[trigger] self.patterns@[j]).name@ != name@,
            decreases self.patterns@.len() - i,
        {
            if self.patterns[i].name == *name {
                proof {
                    let idx = index_of_name(self.patterns@, name@);
                    assert(self.patterns@[i as int].name@ == name@);
                    assert(contains_name(self.patterns@, name@));
                    if idx != i as int {
                        assert(self.patterns@[idx].name@ == name@);
                        assert(false);
                    }
                }
                return Some(i);
            }
            i = i + 1;
        }
        None
    }

    /// Look a pattern up by name.
    pub fn get(&self, name: &String) -> (r: Option<&Pattern>)
        requires
            self.wf(),
        ensures
            r matches Some(p) ==> contains_name(self.patterns@, name@) && *p
                == self.patterns@[index_of_name(self.patterns@, name@)] && p.name@ == name@,
            r is None ==> !contains_name(self.patterns@, name@),
    {
        match self.index_of(name) {
            Some(i) => Some(&self.patterns[i]),
            None => None,
        }
    }

    /// Put a pattern in under its name, replacing any pattern of that name.
    pub fn insert(&mut self, pattern: Pattern)
        requires
            old(self).wf(),
            pattern.wf(),
        ensures
            final(self).wf(),
            contains_name(old(self).patterns@, pattern.name@) ==> final(self).patterns@ == old(
                self,
            ).patterns@.update(index_of_name(old(self).patterns@, pattern.name@), pattern),
            !contains_name(old(self).patterns@, pattern.name@) ==> final(self).patterns@ == old(
                self,
            ).patterns@.push(pattern),
    {
        match self.index_of(&pattern.name) {
            Some(i) => {
                self.patterns.set(i, pattern);
                proof {
                    assert forall|a: int, b: int|
                        0 <= a < b < self.patterns@.len() implies (#[trigger] self.patterns@[a]).name@
                        != (#[trigger] self.patterns@[b]).name@ by {
                        assert(old(self).patterns@[a].name@ != old(self).patterns@[b].name@);
                    }
                }
            },
            None => {
                self.patterns.push(pattern);
                proof {
                    assert forall|a: int, b: int|
                        0 <= a < b < self.patterns@.len() implies (#[trigger] self.patterns@[a]).name@
                        != (#[trigger] self.patterns@[b]).name@ by {
                        if b < self.patterns@.len() - 1 {
                            assert(old(self).patterns@[a].name@ != old(self).patterns@[b].name@);
                        } else {
                            assert(old(self).patterns@[a].name@ != pattern.name@);
                        }
                    }
                }
            },
        }
    }

    /// Take the pattern of this name out of the store; a name not in the
    /// store changes nothing.
    pub fn remove(&mut self, name: &String)
        requires
            old(self).wf(),
        ensures
            final(self).wf(),
            !contains_name(old(self).patterns@, name@) ==> final(self).patterns@ == old(
                self,
            ).patterns@,
            contains_name(old(self).patterns@, name@) ==> {
                let idx = index_of_name(old(self).patterns@, name@);
                final(self).patterns@ == old(self).patterns@.subrange(0, idx) + old(
                    self,
                ).patterns@.subrange(idx + 1, old(self).patterns@.len() as int)
            },
    {
        let ghost olds = self.patterns@;
        match self.index_of(name) {
            None => {},
            Some(idx) => {
                let mut tail: Vec<Pattern> = Vec::new();
                while self.patterns.len() > idx + 1
                    invariant
                        idx < olds.len(),
                        idx + 1 <= self.patterns@.len() <= olds.len(),
                        self.patterns@ == olds.subrange(0, self.patterns@.len() as int),
                        tail@.len() == olds.len() - self.patterns@.len(),
                        forall|j: int|
                            0 <= j < tail@.len() ==> #[trigger] tail@[j] == olds[olds.len() - 1
                                - j],
                    decreases self.patterns@.len(),
                {
                    let p = self.patterns.pop().unwrap();
                    tail.push(p);
                }
                let ghost k = tail@.len();
                let _ = self.patterns.pop();
                while tail.len() > 0
                    invariant
                        idx < olds.len(),
                        k == olds.len() - idx - 1,
                        tail@.len() <= k,
                        self.patterns@.len() == idx + (k - tail@.len()),
                        forall|j: int|
                            0 <= j < idx ==> #[trigger] self.patterns@[j] == olds[j],
                        forall|j: int|
                            idx <= j < self.patterns@.len() ==> #[trigger] self.patterns@[j]
                                == olds[j + 1],
                        forall|j: int|
                            0 <= j < tail@.len() ==> #[trigger] tail@[j] == olds[olds.len() - 1
                                - j],
                    decreases tail@.len(),
                {
                    let p = tail.pop().unwrap();
                    self.patterns.push(p);
                }
                proof {
                    assert(self.patterns@ =~= olds.subrange(0, idx as int) + olds.subrange(
                        idx as int + 1,
                        olds.len() as int,
                    ));
                    assert forall|a: int, b: int|
                        0 <= a < b < self.patterns@.len() implies (#[trigger] self.patterns@[a]).name@
                        != (#[trigger] self.patterns@[b]).name@ by {
                        let a0 = if a < idx {
                            a
                        } else {
                            a + 1
                        };
                        let b0 = if b < idx {
                            b
                        } else {
                            b + 1
                        };
                        assert(self.patterns@[a] == olds[a0] && self.patterns@[b] == olds[b0]);
                        assert(olds[a0].name@ != olds[b0].name@);
                    }
                }
            },
        }
    }

    /// Mark the pattern of this name as persistent (not temporary); a name
    /// not in the store changes nothing.
    pub fn mark_as_not_temp(&mut self, name: &String)
        requires
            old(self).wf(),
        ensures
            final(self).wf(),
            !contains_name(old(self).patterns@, name@) ==> final(self).patterns@ == old(
                self,
            ).patterns@,
            contains_name(old(self).patterns@, name@) ==> {
                let idx = index_of_name(old(self).patterns@, name@);
                final(self).patterns@ == old(self).patterns@.update(
                    idx,
                    (Pattern {
                        name: old(self).patterns@[idx].name,
                        cells: old(self).patterns@[idx].cells,
                        deletable: old(self).patterns@[idx].deletable,
                        is_temp: false,
                        dir: old(self).patterns@[idx].dir,
                    }),
                )
            },
    {
        match self.index_of(name) {
            Some(i) => {
                let mut taken = Pattern {
                    name: String::new(),
                    cells: Vec::new(),
                    deletable: false,
                    is_temp: false,
                    dir: crate::pattern::Dir::Unknown,
                };
                self.patterns.set_and_swap(i, &mut taken);
                taken.is_temp = false;
                self.patterns.set(i, taken);
                proof {
                    assert forall|a: int, b: int|
                        0 <= a < b < self.patterns@.len() implies (#[trigger] self.patterns@[a]).name@
                        != (#[trigger] self.patterns@[b]).name@ by {
                        assert(old(self).patterns@[a].name@ != old(self).patterns@[b].name@);
                    }
                }
            },
            None => {},
        }
    }

    /// The patterns worth persisting: copies of all that are not marked
    /// temporary, in store order.
    pub fn savable_patterns(&self) -> (r: Vec<Pattern>)
        ensures
            r@.len() == savable(self.patterns@).len(),
            forall|j: int|
                0 <= j < r@.len() ==> same_pattern(#[trigger] r@[j], savable(self.patterns@)[j]),
    {
        let mut r: Vec<Pattern> = Vec::new();
        let mut i: usize = 0;
        while i < self.patterns.len()
            invariant
                0 <= i <= self.patterns@.len(),
                r@.len() == savable(self.patterns@.take(i as int)).len(),
                forall|j: int|
                    0 <= j < r@.len() ==> same_pattern(
                        #[trigger] r@[j],
                        savable(self.patterns@.take(i as int))[j],
                    ),
            decreases self.patterns@.len() - i,
        {
            proof {
                let t = self.patterns@.take(i as int + 1);
                assert(t.drop_last() =~= self.patterns@.take(i as int));
                assert(t.last() == self.patterns@[i as int]);
            }
            if !self.patterns[i].is_temp {
                let p = self.patterns[i].clone();
                r.push(p);
            }
            i = i + 1;
        }
        proof {
            assert(self.patterns@.take(self.patterns@.len() as int) =~= self.patterns@);
        }
        r
    }

    /// Fold freshly loaded patterns into the store, in order: a new name is
    /// added, a known name replaces its pattern — except that a built-in
    /// (not deletable) pattern is never overwritten by a loaded one.
    pub fn merge_loaded(&mut self, loaded: Vec<Pattern>)
        requires
            old(self).wf(),
            forall|i: int| 0 <= i < loaded@.len() ==> (#[trigger] loaded@[i]).wf(),
        ensures
            final(self).wf(),
            final(self).patterns@ == merge_upto(
                old(self).patterns@,
                loaded@,
                loaded@.len() as int,
            ),
    {
        let ghost l = loaded@;
        let ghost n = loaded@.len() as int;
        let mut rest = loaded;
        let mut stack: Vec<Pattern> = Vec::new();
        proof {
            assert(l.subrange(0, l.len() as int) =~= l);
        }
        while rest.len() > 0
            invariant
                n == l.len(),
                rest@.len() + stack@.len() == n,
                rest@ == l.subrange(0, rest@.len() as int),
                forall|j: int| 0 <= j < stack@.len() ==> #[trigger] stack@[j] == l[n - 1 - j],
            decreases rest@.len(),
        {
            let ghost old_rest = rest@;
            let p = rest.pop().unwrap();
            proof {
                assert(old_rest.len() > 0);
                assert(old_rest == l.subrange(0, old_rest.len() as int));
                assert(p == old_rest[old_rest.len() - 1]);
                assert(l.subrange(0, old_rest.len() as int)[old_rest.len() - 1] == l[old_rest.len()
                    - 1]);
                assert(p == l[old_rest.len() - 1]);
                assert forall|j: int| 0 <= j < rest@.len() implies rest@[j] == l[j] by {
                    assert(old_rest[j] == l.subrange(0, old_rest.len() as int)[j]);
                }
                assert(rest@ =~= l.subrange(0, rest@.len() as int));
            }
            stack.push(p);
        }
        while stack.len() > 0
            invariant
                old(self).wf(),
                forall|j: int| 0 <= j < l.len() ==> (#[trigger] l[j]).wf(),
                n == l.len(),
                stack@.len() <= n,
                forall|j: int| 0 <= j < stack@.len() ==> #[trigger] stack@[j] == l[n - 1 - j],
                self.wf(),
                self.patterns@ == merge_upto(old(self).patterns@, l, n - stack@.len()),
            decreases stack@.len(),
        {
            let ghost i = n - stack@.len();
            let p = stack.pop().unwrap();
            proof {
                assert(p == l[i]);
            }
            let ghost pre = self.patterns@;
            match self.index_of(&p.name) {
                Some(idx) => {
                    if self.patterns[idx].deletable {
                        self.patterns.set(idx, p);
                        proof {
                            assert(self.patterns@ == merge_one(pre, l[i]));
                            assert forall|a: int, b: int|
                                0 <= a < b < self.patterns@.len() implies (#[trigger] self
                                .patterns@[a]).name@ != (#[trigger] self.patterns@[b]).name@ by {
                                assert(pre[a].name@ != pre[b].name@);
                            }
                        }
                    } else {
                        proof {
                            assert(self.patterns@ == merge_one(pre, l[i]));
                        }
                    }
                },
                None => {
                    self.patterns.push(p);
                    proof {
                        assert(self.patterns@ == merge_one(pre, l[i]));
                        assert forall|a: int, b: int|
                            0 <= a < b < self.patterns@.len() implies (#[trigger] self
                            .patterns@[a]).name@ != (#[trigger] self.patterns@[b]).name@ by {
                            if b < self.patterns@.len() - 1 {
                                assert(pre[a].name@ != pre[b].name@);
                            } else {
                                assert(pre[a].name@ != l[i].name@);
                            }
                        }
                    }
                },
            }
        }
    }
}

impl Default for SavedPatterns {
    /// The built-in template library: ten read-only patterns, none
    /// deletable, each already rotated to its shipped heading.
    fn default() -> (r: Self)
        ensures
            r.wf(),
            r.patterns@.len() == builtin_names().len(),
            forall|i: int|
                0 <= i < r.patterns@.len() ==> (#[trigger] r.patterns@[i]).name@
                    == builtin_names()[i] && !r.patterns@[i].deletable && r.patterns@[i].is_temp,
            forall|i: int|
                0 <= i < r.patterns@.len() ==> (#[trigger] r.patterns@[i]).cells@
                    == builtin_cells(i) && r.patterns@[i].dir == builtin_dir(i),
    {
        let mut patterns: Vec<Pattern> = Vec::new();
        patterns.push(Pattern::readonly_map_entry("1x1".to_owned(), vec![(0, 0)], Dir::Any).1);
        patterns.push(
            Pattern::readonly_map_entry("2x2".to_owned(), vec![(0, 0), (1, 0), (0, 1), (1, 1)], Dir::Any).1,
        );
        patterns.push(
            Pattern::readonly_map_entry(
                "glider".to_owned(),
                vec![(1, 0), (2, 1), (0, 2), (1, 2), (2, 2)],
                Dir::NE,
            ).1,
        );
        patterns.push(
            Pattern::readonly_map_entry("blinker".to_owned(), vec![(0, 1), (1, 1), (2, 1)], Dir::Any).1,
        );
        patterns.push(
            Pattern::readonly_map_entry(
                "toad".to_owned(),
                vec![(0, 1), (1, 1), (2, 1), (1, 2), (2, 2)],
                Dir::S,
            ).1,
        );
        patterns.push(
            Pattern::readonly_map_entry(
                "beacon".to_owned(),
                vec![(0, 0), (1, 0), (0, 1), (2, 2), (2, 3), (3, 3)],
                Dir::SW,
            ).1,
        );
        patterns.push(
            Pattern::readonly_map_entry(
                "LWSS".to_owned(),
                vec![(1, 0), (4, 0), (0, 1), (0, 2), (4, 2), (0, 3), (1, 3), (2, 3), (3, 3)],
                Dir::W,
            ).1,
        );
        patterns.push(
            Pattern::readonly_map_entry(
                "R-Pentomino".to_owned(),
                vec![(2, 1), (1, 2), (2, 2), (2, 3), (3, 3)],
                Dir::W,
            ).1,
        );
        patterns.push(
            Pattern::readonly_map_entry(
                "face".to_owned(),
                vec![
                    (3, 2),
                    (2, 3),
                    (4, 3),
                    (1, 4),
                    (3, 4),
                    (5, 4),
                    (1, 5),
                    (2, 5),
                    (4, 5),
                    (5, 5),
                    (1, 6),
                    (5, 6),
                ],
                Dir::Any,
            ).1,
        );
        patterns.push(
            Pattern::readonly_map_entry(
                "Gosper Glider Gun".to_owned(),
                vec![
                    (15, 7),
                    (16, 7),
                    (14, 8),
                    (18, 8),
                    (13, 9),
                    (19, 9),
                    (27, 9),
                    (3, 10),
                    (4, 10),
                    (13, 10),
                    (17, 10),
                    (19, 10),
                    (20, 10),
                    (25, 10),
                    (27, 10),
                    (3, 11),
                    (4, 11),
                    (13, 11),
                    (19, 11),
                    (23, 11),
                    (24, 11),
                    (14, 12),
                    (18, 12),
                    (23, 12),
                    (24, 12),
                    (37, 12),
                    (38, 12),
                    (15, 13),
                    (16, 13),
                    (23, 13),
                    (24, 13),
                    (37, 13),
                    (38, 13),
                    (25, 14),
                    (27, 14),
                    (27, 15),
                ],
                Dir::SE,
            ).1,
        );
        let r = SavedPatterns { patterns };
        proof {
            reveal_strlit("1x1");
            reveal_strlit("2x2");
            reveal_strlit("glider");
            reveal_strlit("blinker");
            reveal_strlit("toad");
            reveal_strlit("beacon");
            reveal_strlit("LWSS");
            reveal_strlit("R-Pentomino");
            reveal_strlit("face");
            reveal_strlit("Gosper Glider Gun");
            assert(r.patterns@.len() == builtin_names().len());
            assert forall|i: int|
                0 <= i < r.patterns@.len() implies (#[trigger] r.patterns@[i]).name@
                == builtin_names()[i] && !r.patterns@[i].deletable && r.patterns@[i].is_temp by {
            }
            assert forall|i: int|
                0 <= i < r.patterns@.len() implies (#[trigger] r.patterns@[i]).cells@
                == builtin_cells(i) && r.patterns@[i].dir == builtin_dir(i) by {
                assert(r.patterns@[i].cells@ =~= builtin_cells(i));
            }
            assert forall|i: int, j: int|
                0 <= i < j < r.patterns@.len() implies (#[trigger] r.patterns@[i]).name@ != (
            #[trigger] r.patterns@[j]).name@ by {
                let a = builtin_names()[i];
                let b = builtin_names()[j];
                assert(a.len() != b.len() || a[0] != b[0]);
                assert(r.patterns@[i].name@ == a && r.patterns@[j].name@ == b);
            }
            assert forall|i: int| 0 <= i < r.patterns@.len() implies (#[trigger] r.patterns@[i]).wf()
                by {
            }
        }
        r
    }
}

/// Look a pattern up by name in the store.
pub fn find_pattern<'a>(patterns: &'a SavedPatterns, pattern_name: &String) -> (r: Option<
    &'a Pattern,
>)
    requires
        patterns.wf(),
    ensures
        r matches Some(p) ==> contains_name(patterns.patterns@, pattern_name@) && *p
            == patterns.patterns@[index_of_name(patterns.patterns@, pattern_name@)] && p.name@
            == pattern_name@,
        r is None ==> !contains_name(patterns.patterns@, pattern_name@),
{
    patterns.get(pattern_name)
}

} // verus!
