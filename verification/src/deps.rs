use vstd::prelude::*;

use crate::model::{str_equal, str_seq};
use crate::sort::{
    chars_lt, lemma_chars_lt_asymmetric, lemma_chars_lt_irreflexive, lemma_chars_lt_total,
    lemma_chars_lt_transitive, str_lt,
};
use crate::text::opt_ref;

verus! {

/// Every element sorts strictly before every later one (so none occurs twice).
pub open spec fn strictly_sorted(s: Seq<Seq<char>>) -> bool {
    forall|i: int, j: int| 0 <= i < j < s.len() ==> chars_lt(#[trigger] s[i], #[trigger] s[j])
}

/// The names of `ids` in ascending order, each once.
pub open spec fn dependency_list(ids: Set<Seq<char>>) -> Seq<Seq<char>> {
    choose|r: Seq<Seq<char>>| strictly_sorted(r) && r.to_set() == ids
}

/// Two strictly sorted sequences with the same elements are equal.
pub proof fn lemma_sorted_unique(a: Seq<Seq<char>>, b: Seq<Seq<char>>)
    requires
        strictly_sorted(a),
        strictly_sorted(b),
        a.to_set() == b.to_set(),
    ensures
        a == b,
    decreases a.len(),
{
    if a.len() == 0 {
        if b.len() > 0 {
            assert(b.to_set().contains(b[0]));
        }
        assert(a =~= b);
    } else {
        assert(a.to_set().contains(a[0]));
        assert(b.len() > 0);
        assert(b.to_set().contains(b[0]));
        let i = choose|i: int| 0 <= i < b.len() && b[i] == a[0];
        let j = choose|j: int| 0 <= j < a.len() && a[j] == b[0];
        if i > 0 {
            assert(chars_lt(b[0], b[i]));
            if j > 0 {
                assert(chars_lt(a[0], a[j]));
                lemma_chars_lt_asymmetric(a[0], b[0]);
            } else {
                lemma_chars_lt_irreflexive(a[0]);
            }
        }
        assert(a[0] == b[0]);
        let (a1, b1) = (a.drop_first(), b.drop_first());
        assert forall|x: Seq<char>| a1.to_set().contains(x) implies b1.to_set().contains(x) by {
            let k = choose|k: int| 0 <= k < a1.len() && a1[k] == x;
            assert(a[k + 1] == x);
            assert(chars_lt(a[0], x));
            assert(b.to_set().contains(x));
            let m = choose|m: int| 0 <= m < b.len() && b[m] == x;
            if m == 0 {
                lemma_chars_lt_irreflexive(x);
            }
            assert(b1[m - 1] == x);
        }
        assert forall|x: Seq<char>| b1.to_set().contains(x) implies a1.to_set().contains(x) by {
            let k = choose|k: int| 0 <= k < b1.len() && b1[k] == x;
            assert(b[k + 1] == x);
            assert(chars_lt(b[0], x));
            assert(a.to_set().contains(x));
            let m = choose|m: int| 0 <= m < a.len() && a[m] == x;
            if m == 0 {
                lemma_chars_lt_irreflexive(x);
            }
            assert(a1[m - 1] == x);
        }
        assert(a1.to_set() =~= b1.to_set());
        lemma_sorted_unique(a1, b1);
        assert(a =~= seq![a[0]] + a1);
        assert(b =~= seq![b[0]] + b1);
    }
}

/// A strictly sorted sequence is the dependency list of its own elements.
pub proof fn lemma_dependency_list_of(r: Seq<Seq<char>>)
    requires
        strictly_sorted(r),
    ensures
        dependency_list(r.to_set()) == r,
{
    let d = dependency_list(r.to_set());
    assert(strictly_sorted(d) && d.to_set() == r.to_set());
    lemma_sorted_unique(d, r);
}

/// The identifiers that a declaration refers to, collected as a set.
pub struct DependencyCollector {
    identifiers: Vec<String>,
}

impl View for DependencyCollector {
    type V = Set<Seq<char>>;

    closed spec fn view(&self) -> Set<Seq<char>> {
        str_seq(self.identifiers@).to_set()
    }
}

impl DependencyCollector {
    /// The collector keeps its identifiers in ascending order, each once.
    pub closed spec fn wf(&self) -> bool {
        strictly_sorted(str_seq(self.identifiers@))
    }

    /// A collector that has seen no identifier.
    pub fn new() -> (r: DependencyCollector)
        ensures
            r.wf(),
            r@ == Set::<Seq<char>>::empty(),
    {
        let r = DependencyCollector { identifiers: Vec::new() };
        assert(str_seq(r.identifiers@).to_set() =~= Set::<Seq<char>>::empty());
        r
    }

    /// Records one identifier.
    pub fn insert(&mut self, ident: String)
        requires
            old(self).wf(),
        ensures
            final(self).wf(),
            final(self)@ == old(self)@.insert(ident@),
    {
        let ghost s = str_seq(self.identifiers@);
        let n = self.identifiers.len();
        let mut i: usize = 0;
        while i < n && str_lt(self.identifiers[i].as_str(), ident.as_str())
            invariant
                n == self.identifiers@.len(),
                s == str_seq(self.identifiers@),
                0 <= i <= n,
                forall|k: int| 0 <= k < i ==> chars_lt(#[trigger] s[k], ident@),
            decreases n - i,
        {
            i = i + 1;
        }
        if i < n && str_equal(self.identifiers[i].as_str(), ident.as_str()) {
            assert(s.to_set().insert(ident@) =~= s.to_set()) by {
                assert(s[i as int] == ident@);
            }
            return;
        }
        proof {
            if i < n {
                lemma_chars_lt_total(s[i as int], ident@);
                assert(chars_lt(ident@, s[i as int]));
                assert forall|k: int| i <= k < n implies chars_lt(ident@, #[trigger] s[k]) by {
                    if k > i {
                        lemma_chars_lt_transitive(ident@, s[i as int], s[k]);
                    }
                }
            }
        }
        let ghost iv = ident@;
        self.identifiers.insert(i, ident);
        proof {
            let t = str_seq(self.identifiers@);
            assert(t =~= s.insert(i as int, iv));
            assert forall|a: int, b: int| 0 <= a < b < t.len() implies chars_lt(
                #[trigger] t[a],
                #[trigger] t[b],
            ) by {
                if b < i {
                } else if a < i && b == i {
                } else if a < i {
                    assert(t[b] == s[b - 1]);
                } else if a == i {
                    assert(t[b] == s[b - 1]);
                } else {
                    assert(t[a] == s[a - 1] && t[b] == s[b - 1]);
                }
            }
            assert(t.to_set() =~= s.to_set().insert(iv)) by {
                assert forall|x: Seq<char>| t.to_set().contains(x) implies s.to_set().insert(
                    iv,
                ).contains(x) by {
                    let k = choose|k: int| 0 <= k < t.len() && t[k] == x;
                    if k < i {
                        assert(s[k] == x);
                    } else if k > i {
                        assert(s[k - 1] == x);
                    }
                }
                assert forall|x: Seq<char>| s.to_set().insert(iv).contains(x) implies t.to_set().contains(
                    x,
                ) by {
                    if x == iv {
                        assert(t[i as int] == x);
                    } else {
                        let k = choose|k: int| 0 <= k < s.len() && s[k] == x;
                        if k < i {
                            assert(t[k] == x);
                        } else {
                            assert(t[k + 1] == x);
                        }
                    }
                }
            }
        }
    }

    /// The collected identifiers in ascending order, each once, without `current_name`.
    pub fn finish(self, current_name: Option<&str>) -> (r: Vec<String>)
        requires
            self.wf(),
        ensures
            strictly_sorted(str_seq(r@)),
            str_seq(r@).to_set() == match opt_ref(current_name) {
                Some(name) => self@.remove(name),
                None => self@,
            },
    {
        let ghost s = str_seq(self.identifiers@);
        let mut out: Vec<String> = Vec::new();
        let n = self.identifiers.len();
        let mut i: usize = 0;
        while i < n
            invariant
                n == self.identifiers@.len(),
                s == str_seq(self.identifiers@),
                strictly_sorted(s),
                0 <= i <= n,
                strictly_sorted(str_seq(out@)),
                forall|k: int| 0 <= k < out@.len() ==> exists|j: int| 0 <= j < i && #[trigger] str_seq(out@)[k] == s[j],
                forall|j: int|
                    0 <= j < i ==> (match opt_ref(current_name) {
                        Some(name) => s[j] != name,
                        None => true,
                    }) ==> str_seq(out@).contains(#[trigger] s[j]),
                forall|k: int| 0 <= k < out@.len() ==> (match opt_ref(current_name) {
                        Some(name) => #[trigger] str_seq(out@)[k] != name,
                        None => true,
                    }),
            decreases n - i,
        {
            let keep = match current_name {
                Some(name) => !str_equal(self.identifiers[i].as_str(), name),
                None => true,
            };
            if keep {
                let ghost before = str_seq(out@);
                out.push(self.identifiers[i].clone());
                proof {
                    let t = str_seq(out@);
                    assert(t =~= before.push(s[i as int]));
                    assert forall|a: int, b: int| 0 <= a < b < t.len() implies chars_lt(
                        #[trigger] t[a],
                        #[trigger] t[b],
                    ) by {
                        if b == t.len() - 1 {
                            let j = choose|j: int| 0 <= j < i && before[a] == s[j];
                            assert(chars_lt(s[j], s[i as int]));
                        }
                    }
                    assert forall|k: int| 0 <= k < t.len() implies exists|j: int|
                        0 <= j < i + 1 && #[trigger] t[k] == s[j] by {
                        if k < before.len() {
                            let j = choose|j: int| 0 <= j < i && before[k] == s[j];
                            assert(t[k] == s[j]);
                        } else {
                            assert(t[k] == s[i as int]);
                        }
                    }
                    assert forall|j: int|
                        0 <= j < i + 1 && (match opt_ref(current_name) {
                            Some(name) => s[j] != name,
                            None => true,
                        }) implies t.contains(#[trigger] s[j]) by {
                        if j < i {
                            let k = choose|k: int| 0 <= k < before.len() && before[k] == s[j];
                            assert(t[k] == s[j]);
                        } else {
                            assert(t[t.len() - 1] == s[j]);
                        }
                    }
                    assert forall|k: int| 0 <= k < t.len() implies (match opt_ref(current_name) {
                        Some(name) => #[trigger] t[k] != name,
                        None => true,
                    }) by {
                        if k < before.len() {
                            assert(t[k] == before[k]);
                        }
                    }
                }
            } else {
                proof {
                    let t = str_seq(out@);
                    assert forall|k: int| 0 <= k < t.len() implies exists|j: int|
                        0 <= j < i + 1 && #[trigger] t[k] == s[j] by {
                        let j = choose|j: int| 0 <= j < i && t[k] == s[j];
                        assert(0 <= j < i + 1 && t[k] == s[j]);
                    }
                }
            }
            i = i + 1;
        }
        proof {
            let t = str_seq(out@);
            let target = match opt_ref(current_name) {
                Some(name) => self@.remove(name),
                None => self@,
            };
            assert forall|x: Seq<char>| t.to_set().contains(x) implies target.contains(x) by {
                let k = choose|k: int| 0 <= k < t.len() && t[k] == x;
                let j = choose|j: int| 0 <= j < n && t[k] == s[j];
                assert(s.to_set().contains(x));
            }
            assert forall|x: Seq<char>| target.contains(x) implies t.to_set().contains(x) by {
                let j = choose|j: int| 0 <= j < s.len() && s[j] == x;
                assert(t.contains(s[j]));
            }
            assert(t.to_set() =~= target);
        }
        out
    }
}

/// Sorts `deps` and drops repeated names.
pub fn canonical_dependencies(deps: Vec<String>) -> (r: Vec<String>)
    ensures
        str_seq(r@) == dependency_list(str_seq(deps@).to_set()),
        strictly_sorted(str_seq(r@)),
        str_seq(r@).to_set() == str_seq(deps@).to_set(),
{
    let ghost s = str_seq(deps@);
    let mut c = DependencyCollector::new();
    let n = deps.len();
    let mut i: usize = 0;
    while i < n
        invariant
            n == deps@.len(),
            s == str_seq(deps@),
            0 <= i <= n,
            c.wf(),
            c@ == s.take(i as int).to_set(),
        decreases n - i,
    {
        c.insert(deps[i].clone());
        assert(s.take(i + 1) =~= s.take(i as int).push(s[i as int]));
        proof {
            let (a, b) = (s.take(i + 1), s.take(i as int));
            assert forall|x: Seq<char>| a.to_set().contains(x) implies b.to_set().insert(
                s[i as int],
            ).contains(x) by {
                let k = choose|k: int| 0 <= k < a.len() && a[k] == x;
                if k < i {
                    assert(b[k] == x);
                }
            }
            assert forall|x: Seq<char>| b.to_set().insert(s[i as int]).contains(x) implies a.to_set().contains(
                x,
            ) by {
                if x == s[i as int] {
                    assert(a[i as int] == x);
                } else {
                    let k = choose|k: int| 0 <= k < b.len() && b[k] == x;
                    assert(a[k] == x);
                }
            }
            assert(a.to_set() =~= b.to_set().insert(s[i as int]));
        }
        i = i + 1;
    }
    assert(s.take(n as int) =~= s);
    let r = c.finish(None);
    proof {
        lemma_dependency_list_of(str_seq(r@));
    }
    r
}

} // verus!
