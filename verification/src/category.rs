//! First-seen categorical encoding.
//!
//! Distinct string values are assigned small integer ids in the order they
//! are first seen, capped at 254 real categories; the id 255 is reserved for
//! the literal `"__MISSING__"` key, for absent values, and for any value
//! seen after the cap.  The mapping is held as an insertion-ordered key
//! list, so id assignment is reproducible and independent of any hash order.

use vstd::prelude::*;

verus! {

broadcast use vstd::string::group_string_axioms;

/// The reserved key that always maps to the missing-value id 255.
pub open spec fn missing_key() -> Seq<char> {
    "__MISSING__"@
}

/// The key list that first-seen assignment builds from a value sequence:
/// each present value is appended the first time it is seen, as long as
/// fewer than 254 keys have been assigned.
pub open spec fn category_keys(vals: Seq<Option<Seq<char>>>) -> Seq<Seq<char>>
    decreases vals.len(),
{
    if vals.len() == 0 {
        Seq::empty()
    } else {
        let prev = category_keys(vals.drop_last());
        match vals.last() {
            Option::None => prev,
            Option::Some(s) => if prev.contains(s) || prev.len() >= 254 {
                prev
            } else {
                prev.push(s)
            },
        }
    }
}

/// Index of the first key equal to `s`; `keys.len()` if none is.
pub open spec fn first_key_index(keys: Seq<Seq<char>>, s: Seq<char>) -> int
    decreases keys.len(),
{
    if keys.len() == 0 {
        0
    } else if keys[0] == s {
        0
    } else {
        1 + first_key_index(keys.drop_first(), s)
    }
}

/// `first_key_index` is exactly the least index holding `s`.
pub proof fn lemma_first_key_index(keys: Seq<Seq<char>>, s: Seq<char>)
    ensures
        0 <= first_key_index(keys, s) <= keys.len(),
        first_key_index(keys, s) < keys.len() ==> keys[first_key_index(keys, s)] == s,
        forall|j: int| 0 <= j < first_key_index(keys, s) ==> keys[j] != s,
    decreases keys.len(),
{
    if keys.len() > 0 && keys[0] != s {
        lemma_first_key_index(keys.drop_first(), s);
        assert forall|j: int| 0 <= j < first_key_index(keys, s) implies keys[j] != s by {
            if j > 0 {
                assert(keys.drop_first()[j - 1] == keys[j]);
            }
        }
    }
}

/// The id a value maps to: 255 for an absent value, for the reserved
/// missing key, and for any value that is not among the keys; otherwise the
/// position of the value in the key list.
pub open spec fn spec_lookup(keys: Seq<Seq<char>>, value: Option<Seq<char>>) -> int {
    match value {
        Option::None => 255,
        Option::Some(s) => if s == missing_key() {
            255
        } else if keys.contains(s) {
            first_key_index(keys, s)
        } else {
            255
        },
    }
}

/// An insertion-ordered mapping from category strings to bin ids: the id of
/// a key is its position in the list.
#[derive(Debug)]
pub struct CategoryMap {
    pub keys: Vec<String>,
}

impl View for CategoryMap {
    type V = Seq<Seq<char>>;

    open spec fn view(&self) -> Seq<Seq<char>> {
        Seq::new(self.keys@.len(), |i: int| self.keys@[i]@)
    }
}

impl CategoryMap {
    /// Keys are distinct and no more than 254 ids are assigned, so every id
    /// fits below the reserved sentinel 255.
    pub open spec fn wf(self) -> bool {
        &&& forall|i: int, j: int| 0 <= i < j < self@.len() ==> self@[i] != self@[j]
        &&& self@.len() <= 254
    }

    /// Position of `value` among the keys, or `keys.len()` if absent.
    fn find(&self, value: &String) -> (r: usize)
        ensures
            r as int == first_key_index(self@, value@),
    {
        proof {
            lemma_first_key_index(self@, value@);
        }
        let n = self.keys.len();
        let mut j: usize = 0;
        while j < n
            invariant
                0 <= j <= n,
                n == self@.len(),
                self@ == Seq::new(self.keys@.len(), |i: int| self.keys@[i]@),
                forall|k: int| 0 <= k < j ==> self@[k] != value@,
                0 <= first_key_index(self@, value@) <= self@.len(),
                first_key_index(self@, value@) < self@.len() ==> self@[first_key_index(
                    self@,
                    value@,
                )] == value@,
                forall|k: int| 0 <= k < first_key_index(self@, value@) ==> self@[k] != value@,
            decreases n - j,
        {
            if self.keys[j].eq(value) {
                proof {
                    let f = first_key_index(self@, value@);
                    assert(self@[j as int] == value@);
                    if f < j {
                        assert(self@[f] != value@);
                        assert(self@[f] == value@);
                    }
                    if f > j {
                        assert(self@[j as int] != value@);
                    }
                }
                return j;
            }
            j = j + 1;
        }
        n
    }

    /// Maps a value to its bin id: the position of the value among the keys,
    /// or 255 when the value is absent, is the reserved missing key, or was
    /// never assigned an id.
    pub fn lookup(&self, value: &Option<String>) -> (id: u8)
        requires
            self.wf(),
        ensures
            id as int == spec_lookup(self@, value.deep_view()),
    {
        match value {
            Option::None => 255,
            Option::Some(s) => {
                let missing = "__MISSING__".to_string();
                if s.eq(&missing) {
                    255
                } else {
                    let j = self.find(s);
                    proof {
                        lemma_first_key_index(self@, s@);
                    }
                    if j < self.keys.len() {
                        j as u8
                    } else {
                        255
                    }
                }
            },
        }
    }
}

/// Assigns ids to the distinct present values in first-occurrence order,
/// capped at 254 keys.  Deterministic for a fixed input order; not
/// alphabetical.  A literal `"__MISSING__"` among the values is listed like
/// any other value (it consumes an id), but `lookup` answers 255 for it.
pub fn build_category_map(values: &Vec<Option<String>>) -> (m: CategoryMap)
    ensures
        m@ == category_keys(values.deep_view()),
        m.wf(),
{
    let mut m = CategoryMap { keys: Vec::new() };
    proof {
        assert(values.deep_view().take(0) =~= Seq::<Option<Seq<char>>>::empty());
        assert(m@ =~= category_keys(values.deep_view().take(0)));
    }
    let n = values.len();
    let mut i: usize = 0;
    while i < n
        invariant
            0 <= i <= n,
            n == values@.len(),
            values.deep_view().len() == n,
            m@ == category_keys(values.deep_view().take(i as int)),
            m.wf(),
        decreases n - i,
    {
        let ghost prev = m@;
        match &values[i] {
            Option::None => {},
            Option::Some(s) => {
                let pos = m.find(s);
                proof {
                    lemma_first_key_index(m@, s@);
                }
                if pos == m.keys.len() && m.keys.len() < 254 {
                    m.keys.push(s.clone());
                    proof {
                        assert(m@ =~= prev.push(s@));
                        assert forall|a: int, b: int| 0 <= a < b < m@.len() implies m@[a]
                            != m@[b] by {
                            if b < m@.len() - 1 {
                                assert(prev[a] == m@[a] && prev[b] == m@[b]);
                            } else {
                                assert(m@[a] == prev[a]);
                                assert(!prev.contains(s@));
                            }
                        }
                    }
                }
            },
        }
        proof {
            assert(values.deep_view().take(i + 1).drop_last() =~= values.deep_view().take(
                i as int,
            ));
            assert(values.deep_view().take(i + 1).last() == values.deep_view()[i as int]);
            assert(values.deep_view()[i as int] == values@[i as int].deep_view());
            match values@[i as int] {
                Option::None => {
                    assert(m@ == category_keys(values.deep_view().take(i + 1)));
                },
                Option::Some(sv) => {
                    assert(prev.contains(sv@) <==> first_key_index(prev, sv@) < prev.len()) by {
                        lemma_first_key_index(prev, sv@);
                        if prev.contains(sv@) {
                            let k = choose|k: int| 0 <= k < prev.len() && prev[k] == sv@;
                            assert(first_key_index(prev, sv@) <= k);
                        }
                    }
                },
            }
        }
        i = i + 1;
    }
    proof {
        assert(values.deep_view().take(n as int) =~= values.deep_view());
    }
    m
}

} // verus!
