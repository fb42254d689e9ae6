use vstd::prelude::*;

verus! {

/// No two entries share a day.
pub open spec fn keys_unique(s: Seq<(String, i64)>) -> bool {
    forall|i: int, j: int| 0 <= i < j < s.len() ==> s[i].0@ != s[j].0@
}

/// The map from day to minutes that the entries `s` hold.
pub open spec fn entries_map(s: Seq<(String, i64)>) -> Map<Seq<char>, int>
    decreases s.len(),
{
    if s.len() == 0 {
        Map::empty()
    } else {
        entries_map(s.drop_last()).insert(s.last().0@, s.last().1 as int)
    }
}

/// Each entry of `s` stands in its map; with unique days, with its own minutes.
pub proof fn lemma_entries_map_index(s: Seq<(String, i64)>, i: int)
    requires
        keys_unique(s),
        0 <= i < s.len(),
    ensures
        entries_map(s).contains_key(s[i].0@),
        entries_map(s)[s[i].0@] == s[i].1 as int,
    decreases s.len(),
{
    if i < s.len() - 1 {
        lemma_entries_map_index(s.drop_last(), i);
    }
}

/// Each day of the map of `s` is the day of an entry of `s`.
pub proof fn lemma_entries_map_dom(s: Seq<(String, i64)>, k: Seq<char>)
    requires
        entries_map(s).contains_key(k),
    ensures
        exists|i: int| 0 <= i < s.len() && s[i].0@ == k,
    decreases s.len(),
{
    if s.last().0@ != k {
        lemma_entries_map_dom(s.drop_last(), k);
        let i = choose|i: int| 0 <= i < s.drop_last().len() && s.drop_last()[i].0@ == k;
        assert(s[i].0@ == k);
    }
}

/// `m` holds the day of `e` with the minutes of `e`.
pub open spec fn has_entry(m: Map<Seq<char>, int>, e: (String, i64)) -> bool {
    m.contains_key(e.0@) && m[e.0@] == e.1 as int
}

/// Every key of `a` is a key of `b`, with the same value.
pub open spec fn map_included(a: Map<Seq<char>, int>, b: Map<Seq<char>, int>) -> bool {
    forall|k: Seq<char>| #[trigger] a.contains_key(k) ==> b.contains_key(k) && b[k] == a[k]
}

/// Worked minutes per calendar day; each day appears once.
#[derive(Debug)]
pub struct Summary {
    days: Vec<(String, i64)>,
}

impl Summary {
    #[verifier::type_invariant]
    spec fn inv(&self) -> bool {
        keys_unique(self.days@)
    }

    /// The days and their minutes, in the order the days first came.
    pub closed spec fn entries(&self) -> Seq<(String, i64)> {
        self.days@
    }

    /// An empty summary.
    pub fn new() -> (r: Summary)
        ensures
            r@ == Map::<Seq<char>, int>::empty(),
    {
        Summary { days: Vec::new() }
    }

    /// The position of `day` among the entries, if it is there.
    fn find(&self, day: &String) -> (r: Option<usize>)
        ensures
            r matches Some(i) ==> i < self.entries().len() && self.entries()[i as int].0@ == day@,
            r is None ==> forall|i: int| 0 <= i < self.entries().len() ==> self.entries()[i].0@ != day@,
    {
        let mut i: usize = 0;
        while i < self.days.len()
            invariant
                i <= self.days@.len(),
                forall|j: int| 0 <= j < i ==> self.days@[j].0@ != day@,
            decreases self.days@.len() - i,
        {
            if self.days[i].0 == *day {
                return Some(i);
            }
            i = i + 1;
        }
        None
    }

    /// Sets the minutes of `day`, replacing any earlier value.
    pub fn insert(&mut self, day: String, minutes: i64)
        ensures
            final(self)@ == old(self)@.insert(day@, minutes as int),
    {
        proof {
            use_type_invariant(&*self);
        }
        let ghost old_days = self.days@;
        let found = self.find(&day);
        proof {
            assert(old_days == self.entries());
            if found is None {
                assert(forall|j: int| 0 <= j < old_days.len() ==> old_days[j].0@ != day@);
            }
        }
        let mut taken = Summary::new();
        std::mem::swap(self, &mut taken);
        let mut days = taken.days;
        match found {
            Some(i) => {
                let ghost k = day@;
                let ghost new_days = old_days.update(i as int, (day, minutes));
                assert(keys_unique(new_days));
                assert(entries_map(new_days) =~= entries_map(old_days).insert(k, minutes as int)) by {
                    assert forall|key: Seq<char>| #[trigger]
                        entries_map(new_days).contains_key(key) implies entries_map(
                        old_days,
                    ).insert(k, minutes as int).contains_key(key) by {
                        lemma_entries_map_dom(new_days, key);
                        let j = choose|j: int| 0 <= j < new_days.len() && new_days[j].0@ == key;
                        if j != i {
                            lemma_entries_map_index(old_days, j);
                        }
                    }
                    assert forall|key: Seq<char>| #[trigger]
                        entries_map(old_days).insert(k, minutes as int).contains_key(key) implies {
                        &&& entries_map(new_days).contains_key(key)
                        &&& entries_map(new_days)[key] == entries_map(old_days).insert(
                            k,
                            minutes as int,
                        )[key]
                    } by {
                        if key == k {
                            lemma_entries_map_index(new_days, i as int);
                        } else {
                            lemma_entries_map_dom(old_days, key);
                            let j = choose|j: int| 0 <= j < old_days.len() && old_days[j].0@ == key;
                            lemma_entries_map_index(old_days, j);
                            lemma_entries_map_index(new_days, j);
                        }
                    }
                }
                days.set(i, (day, minutes));
                *self = Summary { days };
            },
            None => {
                let ghost k = day@;
                assert(days@ == old_days);
                days.push((day, minutes));
                assert(days@.drop_last() =~= old_days);
                assert forall|a: int, b: int| 0 <= a < b < days@.len() implies days@[a].0@
                    != days@[b].0@ by {
                    if b == days@.len() - 1 {
                        assert(old_days[a].0@ != k);
                    } else {
                        assert(old_days[a].0@ != old_days[b].0@);
                    }
                }
                *self = Summary { days };
            },
        }
    }

    /// The minutes of `day`, if it is there.
    pub fn get(&self, day: &String) -> (r: Option<i64>)
        ensures
            r matches Some(m) ==> self@.contains_key(day@) && self@[day@] == m as int,
            r is None ==> !self@.contains_key(day@),
    {
        proof {
            use_type_invariant(self);
        }
        match self.find(day) {
            Some(i) => {
                proof {
                    lemma_entries_map_index(self.days@, i as int);
                }
                Some(self.days[i].1)
            },
            None => {
                proof {
                    if self@.contains_key(day@) {
                        lemma_entries_map_dom(self.days@, day@);
                    }
                }
                None
            },
        }
    }

    /// The days and their minutes, each day once.
    pub fn days(&self) -> (r: &Vec<(String, i64)>)
        ensures
            r@ == self.entries(),
            keys_unique(r@),
            entries_map(r@) == self@,
    {
        proof {
            use_type_invariant(self);
        }
        &self.days
    }

    /// Every day of `self` is in `other` with the same minutes.
    fn included_in(&self, other: &Summary) -> (r: bool)
        ensures
            r == map_included(self@, other@),
    {
        proof {
            use_type_invariant(self);
        }
        let mut i: usize = 0;
        while i < self.days.len()
            invariant
                i <= self.days@.len(),
                keys_unique(self.days@),
                forall|j: int| 0 <= j < i ==> #[trigger] has_entry(other@, self.days@[j]),
            decreases self.days@.len() - i,
        {
            let day = &self.days[i].0;
            let minutes = self.days[i].1;
            proof {
                lemma_entries_map_index(self.days@, i as int);
            }
            let ghost k = self.days@[i as int].0@;
            match other.get(day) {
                Some(m) => {
                    if m != minutes {
                        assert(self@.contains_key(k) && other@[k] != self@[k]);
                        assert(!map_included(self@, other@));
                        return false;
                    }
                },
                None => {
                    assert(self@.contains_key(k) && !other@.contains_key(k));
                    assert(!map_included(self@, other@));
                    return false;
                },
            }
            assert(has_entry(other@, self.days@[i as int]));
            i = i + 1;
        }
        proof {
            assert forall|k: Seq<char>| #[trigger]
                self@.contains_key(k) implies other@.contains_key(k) && other@[k] == self@[k] by {
                lemma_entries_map_dom(self.days@, k);
                let j = choose|j: int| 0 <= j < self.days@.len() && self.days@[j].0@ == k;
                lemma_entries_map_index(self.days@, j);
                assert(has_entry(other@, self.days@[j]));
            }
        }
        true
    }
}

impl View for Summary {
    type V = Map<Seq<char>, int>;

    open spec fn view(&self) -> Map<Seq<char>, int> {
        entries_map(self.entries())
    }
}

impl PartialEq for Summary {
    fn eq(&self, other: &Summary) -> (r: bool) {
        let r = self.included_in(other) && other.included_in(self);
        proof {
            if r {
                assert forall|k: Seq<char>| self@.contains_key(k) <==> other@.contains_key(k) by {
                    if self@.contains_key(k) {
                        assert(other@.contains_key(k));
                    }
                    if other@.contains_key(k) {
                        assert(self@.contains_key(k));
                    }
                }
                assert(self@ =~= other@);
            }
        }
        r
    }
}

impl vstd::std_specs::cmp::PartialEqSpecImpl for Summary {
    open spec fn obeys_eq_spec() -> bool {
        true
    }

    open spec fn eq_spec(&self, other: &Summary) -> bool {
        self@ == other@
    }
}

} // verus!
