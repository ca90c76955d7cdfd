use vstd::prelude::*;
use vstd::string::StringExecFns;

verus! {

/// Unicode `White_Space` code points, the set that `char::is_whitespace` tests for.
pub open spec fn is_ws(c: char) -> bool {
    let u = c as u32;
    ||| 0x09 <= u <= 0x0D
    ||| u == 0x20
    ||| u == 0x85
    ||| u == 0xA0
    ||| u == 0x1680
    ||| 0x2000 <= u <= 0x200A
    ||| u == 0x2028
    ||| u == 0x2029
    ||| u == 0x202F
    ||| u == 0x205F
    ||| u == 0x3000
}

pub fn char_is_whitespace(c: char) -> (r: bool)
    ensures
        r == is_ws(c),
{
    let u = c as u32;
    (0x09 <= u && u <= 0x0D) || u == 0x20 || u == 0x85 || u == 0xA0 || u == 0x1680 || (0x2000
        <= u && u <= 0x200A) || u == 0x2028 || u == 0x2029 || u == 0x202F || u == 0x205F || u
        == 0x3000
}

pub fn chars_of(s: &str) -> (v: Vec<char>)
    ensures
        v@ == s@,
{
    let mut v: Vec<char> = Vec::new();
    for c in it: s.chars()
        invariant
            v@ == it.seq().take(it.index() as int),
    {
        v.push(c);
    }
    v
}


pub assume_specification[ String::push ](s: &mut String, ch: char)
    ensures
        final(s)@ == old(s)@.push(ch),
;

/// The whitespace-separated words of `s`, in order, each non-empty and free of whitespace.
pub open spec fn words(s: Seq<char>) -> Seq<Seq<char>>
    decreases s.len(),
{
    if s.len() == 0 {
        seq![]
    } else {
        let prev = words(s.drop_last());
        let c = s.last();
        if is_ws(c) {
            prev
        } else if s.len() == 1 || is_ws(s[s.len() - 2]) {
            prev.push(seq![c])
        } else {
            prev.update(prev.len() - 1, prev.last().push(c))
        }
    }
}

/// The words joined by single spaces.
pub open spec fn join_words(ws: Seq<Seq<char>>) -> Seq<char>
    decreases ws.len(),
{
    if ws.len() == 0 {
        seq![]
    } else if ws.len() == 1 {
        ws[0]
    } else {
        join_words(ws.drop_last()) + seq![' '] + ws.last()
    }
}

/// `s` with its whitespace runs collapsed to single spaces and trimmed at both ends.
pub open spec fn normalized(s: Seq<char>) -> Seq<char> {
    join_words(words(s))
}

pub proof fn lemma_words_nonempty(s: Seq<char>)
    requires
        s.len() > 0,
        !is_ws(s.last()),
    ensures
        words(s).len() > 0,
    decreases s.len(),
{
    let prev = words(s.drop_last());
    if s.len() == 1 || is_ws(s[s.len() - 2]) {
    } else {
        lemma_words_nonempty(s.drop_last());
    }
}

pub proof fn lemma_join_extend_last(ws: Seq<Seq<char>>, c: char)
    requires
        ws.len() > 0,
    ensures
        join_words(ws.update(ws.len() - 1, ws.last().push(c))) == join_words(ws).push(c),
{
    let ws2 = ws.update(ws.len() - 1, ws.last().push(c));
    if ws.len() == 1 {
    } else {
        assert(ws2.drop_last() =~= ws.drop_last());
        assert(join_words(ws2) =~= join_words(ws).push(c));
    }
}

pub proof fn lemma_join_push(ws: Seq<Seq<char>>, c: char)
    ensures
        join_words(ws.push(seq![c])) == if ws.len() == 0 {
            seq![c]
        } else {
            join_words(ws) + seq![' ', c]
        },
{
    let ws2 = ws.push(seq![c]);
    assert(ws2.drop_last() =~= ws);
    if ws.len() > 0 {
        assert(join_words(ws2) =~= join_words(ws) + seq![' ', c]);
    }
}


/// Every word is non-empty and holds no whitespace.
pub open spec fn well_formed_words(ws: Seq<Seq<char>>) -> bool {
    forall|i: int|
        0 <= i < ws.len() ==> #[trigger] ws[i].len() > 0 && forall|j: int|
            0 <= j < ws[i].len() ==> !is_ws(#[trigger] ws[i][j])
}

proof fn lemma_words_well_formed(s: Seq<char>)
    ensures
        well_formed_words(words(s)),
    decreases s.len(),
{
    if s.len() > 0 {
        let prev = words(s.drop_last());
        lemma_words_well_formed(s.drop_last());
        let c = s.last();
        if !is_ws(c) && !(s.len() == 1 || is_ws(s[s.len() - 2])) {
            lemma_words_nonempty(s.drop_last());
            let w = words(s);
            assert forall|i: int| 0 <= i < w.len() implies #[trigger] w[i].len() > 0 && forall|
                j: int,
            | 0 <= j < w[i].len() ==> !is_ws(#[trigger] w[i][j]) by {
                if i == w.len() - 1 {
                    assert(w[i] == prev.last().push(c));
                    assert forall|j: int| 0 <= j < w[i].len() implies !is_ws(#[trigger] w[i][j]) by {
                        if j < prev.last().len() {
                            assert(w[i][j] == prev[prev.len() - 1][j]);
                        }
                    }
                } else {
                    assert(w[i] == prev[i]);
                }
            }
        } else if !is_ws(c) {
            let w = words(s);
            assert forall|i: int| 0 <= i < w.len() implies #[trigger] w[i].len() > 0 && forall|
                j: int,
            | 0 <= j < w[i].len() ==> !is_ws(#[trigger] w[i][j]) by {
                if i < prev.len() {
                    assert(w[i] == prev[i]);
                }
            }
        }
    }
}

/// The words of `s` followed by `t`, when `s` is empty or ends in whitespace.
proof fn lemma_words_append(s: Seq<char>, t: Seq<char>)
    requires
        s.len() == 0 || is_ws(s.last()),
    ensures
        words(s + t) == words(s) + words(t),
    decreases t.len(),
{
    if t.len() == 0 {
        assert(s + t =~= s);
        assert(words(s) + words(t) =~= words(s));
    } else {
        let t1 = t.drop_last();
        let c = t.last();
        lemma_words_append(s, t1);
        assert((s + t).drop_last() =~= s + t1);
        assert((s + t).last() == c);
        if !is_ws(c) {
            if t1.len() == 0 {
                if s.len() > 0 {
                    assert((s + t)[(s + t).len() - 2] == s.last());
                }
                assert(words(t1) =~= Seq::<Seq<char>>::empty());
                assert(words(s + t) =~= words(s) + words(t));
            } else {
                assert((s + t)[(s + t).len() - 2] == t[t.len() - 2]);
                if !is_ws(t[t.len() - 2]) {
                    assert(t1.last() == t[t.len() - 2]);
                    lemma_words_nonempty(t1);
                }
                assert(words(s + t) =~= words(s) + words(t));
            }
        }
    }
}

proof fn lemma_words_of_word(w: Seq<char>)
    requires
        w.len() > 0,
        forall|j: int| 0 <= j < w.len() ==> !is_ws(#[trigger] w[j]),
    ensures
        words(w) == seq![w],
    decreases w.len(),
{
    if w.len() == 1 {
        assert(w.drop_last() =~= Seq::<char>::empty());
        assert(words(w.drop_last()) == Seq::<Seq<char>>::empty());
        assert(!is_ws(w[0]));
        assert(seq![w[0]] =~= w);
        assert(words(w) == seq![seq![w[0]]]);
    } else {
        let w1 = w.drop_last();
        lemma_words_of_word(w1);
        assert(w[w.len() - 2] == w1.last());
        assert(!is_ws(w[w.len() - 1]));
        assert(!is_ws(w[w.len() - 2]));
        assert(w1.push(w.last()) =~= w);
        assert(seq![w1].update(0, w1.push(w.last())) =~= seq![w]);
    }
}

proof fn lemma_words_of_joined(ws: Seq<Seq<char>>)
    requires
        well_formed_words(ws),
    ensures
        words(join_words(ws)) == ws,
    decreases ws.len(),
{
    if ws.len() == 0 {
    } else if ws.len() == 1 {
        assert(ws[0].len() > 0);
        lemma_words_of_word(ws[0]);
        assert(seq![ws[0]] =~= ws);
    } else {
        let prefix = ws.drop_last();
        assert forall|i: int| 0 <= i < prefix.len() implies #[trigger] prefix[i].len() > 0 && forall|
            j: int,
        | 0 <= j < prefix[i].len() ==> !is_ws(#[trigger] prefix[i][j]) by {
            assert(prefix[i] == ws[i]);
            assert(ws[i].len() > 0);
        }
        lemma_words_of_joined(prefix);
        let head = join_words(prefix) + seq![' '];
        assert(head.drop_last() =~= join_words(prefix));
        assert(is_ws(head.last()));
        assert(words(head) == words(join_words(prefix)));
        assert(ws[ws.len() - 1].len() > 0);
        lemma_words_of_word(ws.last());
        lemma_words_append(head, ws.last());
        assert(join_words(ws) == head + ws.last());
        assert(prefix + seq![ws.last()] =~= ws);
    }
}

/// Normalizing whitespace twice gives what normalizing once gives.
pub proof fn normalizing_is_idempotent(s: Seq<char>)
    ensures
        normalized(normalized(s)) == normalized(s),
{
    lemma_words_well_formed(s);
    lemma_words_of_joined(words(s));
}

/// Texts with the same words, however they are spaced, normalize alike.
pub proof fn normalizing_ignores_spacing(a: Seq<char>, b: Seq<char>)
    requires
        words(a) == words(b),
    ensures
        normalized(a) == normalized(b),
{
}

/// `a` followed by `b`.
pub fn concat(a: &str, b: &str) -> (r: String)
    ensures
        r@ == a@ + b@,
{
    let mut s = String::new();
    s.append(a);
    s.append(b);
    assert(s@ =~= a@ + b@);
    s
}

/// `a`, `b` and `c` one after the other.
pub fn concat3(a: &str, b: &str, c: &str) -> (r: String)
    ensures
        r@ == a@ + b@ + c@,
{
    let mut s = concat(a, b);
    s.append(c);
    s
}

/// The view of an optional string slice.
pub open spec fn opt_ref(o: Option<&str>) -> Option<Seq<char>> {
    match o {
        Some(s) => Some(s@),
        None => None,
    }
}

/// The characters of an optional string, or none.
pub open spec fn or_empty(o: Option<Seq<char>>) -> Seq<char> {
    match o {
        Some(s) => s,
        None => seq![],
    }
}

pub fn as_opt_ref(o: &Option<String>) -> (r: Option<&str>)
    ensures
        opt_ref(r) == crate::model::opt_str(*o),
{
    match o {
        Some(s) => Some(s.as_str()),
        None => None,
    }
}

/// The parts one after the other with `sep` between each two.
pub open spec fn joined(parts: Seq<Seq<char>>, sep: Seq<char>) -> Seq<char>
    decreases parts.len(),
{
    if parts.len() == 0 {
        seq![]
    } else if parts.len() == 1 {
        parts[0]
    } else {
        joined(parts.drop_last(), sep) + sep + parts.last()
    }
}

/// Joins `parts` with `sep` between each two.
pub fn join_with(parts: &Vec<String>, sep: &str) -> (r: String)
    ensures
        r@ == joined(crate::model::str_seq(parts@), sep@),
{
    let ghost s = crate::model::str_seq(parts@);
    let mut out = String::new();
    let n = parts.len();
    let mut i: usize = 0;
    while i < n
        invariant
            n == parts@.len(),
            s == crate::model::str_seq(parts@),
            0 <= i <= n,
            out@ == joined(s.take(i as int), sep@),
        decreases n - i,
    {
        if i > 0 {
            out.append(sep);
        }
        out.append(parts[i].as_str());
        proof {
            let t = s.take(i + 1);
            assert(t.drop_last() =~= s.take(i as int));
            assert(t.last() == s[i as int]);
            if i == 0 {
                assert(out@ =~= s[0]);
            }
        }
        i = i + 1;
    }
    assert(s.take(n as int) =~= s);
    out
}

/// `s` with `rep` put before each character and once more at the end: what replacing the
/// empty pattern gives.
pub open spec fn interleaved(s: Seq<char>, rep: Seq<char>) -> Seq<char>
    decreases s.len(),
{
    if s.len() == 0 {
        rep
    } else {
        rep + seq![s[0]] + interleaved(s.drop_first(), rep)
    }
}

/// `s` with each occurrence of `pat`, found from the left and without overlap, replaced by `rep`;
/// the empty pattern occurs before each character and at the end.
pub open spec fn replaced(s: Seq<char>, pat: Seq<char>, rep: Seq<char>) -> Seq<char>
    decreases s.len(),
{
    if pat.len() == 0 {
        interleaved(s, rep)
    } else if s.len() < pat.len() {
        s
    } else if s.take(pat.len() as int) == pat {
        rep + replaced(s.skip(pat.len() as int), pat, rep)
    } else {
        seq![s[0]] + replaced(s.drop_first(), pat, rep)
    }
}

/// Replaces each occurrence of `pat` in `s` by `rep`, as `str::replace` does; an empty `pat`
/// puts `rep` between the characters and at both ends.
pub fn replace_all(s: &str, pat: &str, rep: &str) -> (r: String)
    ensures
        r@ == replaced(s@, pat@, rep@),
{
    let ps = chars_of(pat);
    if ps.len() == 0 {
        interleave(s, rep)
    } else {
        replace_present(s, pat, rep)
    }
}

fn interleave(s: &str, rep: &str) -> (r: String)
    ensures
        r@ == interleaved(s@, rep@),
{
    let cs = chars_of(s);
    let n = cs.len();
    let mut out = String::new();
    let mut i: usize = 0;
    assert(s@.skip(0) =~= s@);
    while i < n
        invariant
            cs@ == s@,
            n == s@.len(),
            0 <= i <= n,
            out@ + interleaved(s@.skip(i as int), rep@) == interleaved(s@, rep@),
        decreases n - i,
    {
        let ghost t = s@.skip(i as int);
        let ghost before = out@;
        let c = cs[i];
        out.append(rep);
        out.push(c);
        proof {
            assert(t.drop_first() =~= s@.skip(i + 1));
            assert(t[0] == c);
            assert(out@ =~= before + rep@ + seq![c]);
            assert(out@ + interleaved(s@.skip(i + 1), rep@) =~= before + interleaved(t, rep@));
        }
        i = i + 1;
    }
    let ghost before = out@;
    out.append(rep);
    assert(s@.skip(n as int) =~= Seq::<char>::empty());
    assert(out@ =~= before + rep@);
    out
}

fn replace_present(s: &str, pat: &str, rep: &str) -> (r: String)
    requires
        pat@.len() > 0,
    ensures
        r@ == replaced(s@, pat@, rep@),
{
    let cs = chars_of(s);
    let ps = chars_of(pat);
    let n = cs.len();
    let m = ps.len();
    let mut out = String::new();
    let mut i: usize = 0;
    assert(s@.skip(0) =~= s@);
    while i < n
        invariant
            cs@ == s@,
            ps@ == pat@,
            n == s@.len(),
            m == pat@.len(),
            m > 0,
            0 <= i <= n,
            out@ + replaced(s@.skip(i as int), pat@, rep@) == replaced(s@, pat@, rep@),
        decreases n - i,
    {
        let ghost t = s@.skip(i as int);
        let mut matched = n - i >= m;
        let mut k: usize = 0;
        while matched && k < m
            invariant
                cs@ == s@,
                ps@ == pat@,
                n == s@.len(),
                m == pat@.len(),
                0 <= i < n,
                0 <= k <= m,
                t == s@.skip(i as int),
                matched ==> n - i >= m,
                matched ==> forall|j: int| 0 <= j < k ==> t[j] == pat@[j],
                !matched ==> !(t.len() >= m && t.take(m as int) == pat@),
            decreases m - k,
        {
            if cs[i + k] != ps[k] {
                proof {
                    if t.len() >= m && t.take(m as int) == pat@ {
                        assert(t.take(m as int)[k as int] == t[k as int]);
                    }
                }
                matched = false;
            }
            k = k + 1;
        }
        if matched {
            assert(t.take(m as int) =~= pat@);
            assert(t.skip(m as int) =~= s@.skip(i + m));
            let ghost before = out@;
            out.append(rep);
            assert(out@ =~= before + rep@);
            assert(out@ + replaced(s@.skip(i + m), pat@, rep@) =~= before + replaced(t, pat@, rep@));
            i = i + m;
        } else {
            let c = cs[i];
            let ghost before = out@;
            out.push(c);
            proof {
                if t.len() >= m {
                    assert(t.take(m as int) != pat@);
                }
                assert(t.drop_first() =~= s@.skip(i + 1));
                assert(t[0] == c);
                assert(out@ =~= before + seq![c]);
                assert(out@ + replaced(s@.skip(i + 1), pat@, rep@) =~= before + replaced(t, pat@, rep@));
            }
            i = i + 1;
        }
    }
    assert(s@.skip(n as int) =~= Seq::<char>::empty());
    assert(out@ + Seq::<char>::empty() =~= out@);
    out
}

} // verus!
