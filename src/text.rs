//! Character-level text operations used by the pipeline procedures:
//! whitespace classification, trimming, whitespace normalization and
//! literal replacement.

use vstd::prelude::*;

verus! {

/// The Unicode `White_Space` property, the set that `char::is_whitespace`
/// and `str::trim` go by.
pub open spec fn is_white_space(c: char) -> bool {
    let u = c as u32;
    (0x9 <= u <= 0xd) || u == 0x20 || u == 0x85 || u == 0xa0 || u == 0x1680 || (0x2000 <= u
        <= 0x200a) || u == 0x2028 || u == 0x2029 || u == 0x202f || u == 0x205f || u == 0x3000
}

/// Whether `c` is white space.
pub fn white_space(c: char) -> (r: bool)
    ensures
        r == is_white_space(c),
{
    let u = c as u32;
    (0x9 <= u && u <= 0xd) || u == 0x20 || u == 0x85 || u == 0xa0 || u == 0x1680 || (0x2000 <= u
        && u <= 0x200a) || u == 0x2028 || u == 0x2029 || u == 0x202f || u == 0x205f || u == 0x3000
}

/// Number of leading characters of `s` that satisfy `p`.
pub open spec fn leading(s: Seq<char>, p: spec_fn(char) -> bool) -> nat
    decreases s.len(),
{
    if s.len() > 0 && p(s[0]) {
        1 + leading(s.drop_first(), p)
    } else {
        0
    }
}

/// Number of trailing characters of `s` that satisfy `p`.
pub open spec fn trailing(s: Seq<char>, p: spec_fn(char) -> bool) -> nat
    decreases s.len(),
{
    if s.len() > 0 && p(s.last()) {
        1 + trailing(s.drop_last(), p)
    } else {
        0
    }
}

/// `s` without its leading and trailing characters that satisfy `p`.
pub open spec fn trimmed(s: Seq<char>, p: spec_fn(char) -> bool) -> Seq<char> {
    let rest = s.subrange(leading(s, p) as int, s.len() as int);
    rest.subrange(0, rest.len() - trailing(rest, p))
}

/// Every run of white space replaced by one space.
pub open spec fn squeezed(s: Seq<char>) -> Seq<char>
    decreases s.len(),
{
    if s.len() == 0 {
        s
    } else if !is_white_space(s.last()) {
        squeezed(s.drop_last()).push(s.last())
    } else if s.len() > 1 && is_white_space(s[s.len() - 2]) {
        squeezed(s.drop_last())
    } else {
        squeezed(s.drop_last()).push(' ')
    }
}

/// The words of `s` (its maximal runs without white space) joined by one space.
pub open spec fn normalized(s: Seq<char>) -> Seq<char> {
    trimmed(squeezed(s), |c: char| is_white_space(c))
}

/// `s` with every occurrence of `old`, scanning from the left without
/// overlap, replaced by `new`. An empty `old` matches before every
/// character and at the end.
pub open spec fn replaced(s: Seq<char>, old: Seq<char>, new: Seq<char>) -> Seq<char>
    decreases s.len(),
{
    if old.len() == 0 {
        if s.len() == 0 {
            new
        } else {
            new + seq![s[0]] + replaced(s.drop_first(), old, new)
        }
    } else if s.len() == 0 {
        s
    } else if old.len() <= s.len() && s.subrange(0, old.len() as int) == old {
        new + replaced(s.subrange(old.len() as int, s.len() as int), old, new)
    } else {
        seq![s[0]] + replaced(s.drop_first(), old, new)
    }
}

/// Relies on `String::push`: appends one character.
#[verifier::external_body]
fn push_char(s: &mut String, c: char)
    ensures
        final(s)@ == old(s)@.push(c),
{
    s.push(c);
}

/// The characters of `s`.
pub fn chars_of(s: &str) -> (r: Vec<char>)
    ensures
        r@ == s@,
{
    let mut r: Vec<char> = Vec::new();
    for c in it: s.chars()
        invariant
            r@ == it.seq().subrange(0, it.index() as int),
    {
        r.push(c);
    }
    r
}

/// The string made of `cs[from..to]`.
pub fn string_of(cs: &Vec<char>, from: usize, to: usize) -> (r: String)
    requires
        from <= to <= cs.len(),
    ensures
        r@ == cs@.subrange(from as int, to as int),
{
    let mut r = String::new();
    let mut i: usize = from;
    while i < to
        invariant
            from <= i <= to <= cs.len(),
            r@ == cs@.subrange(from as int, i as int),
        decreases to - i,
    {
        push_char(&mut r, cs[i]);
        assert(cs@.subrange(from as int, i + 1) == cs@.subrange(from as int, i as int).push(cs@[i as int]));
        i = i + 1;
    }
    r
}


/// The set that trimming removes: white space, or the characters of `cut`.
pub open spec fn in_trim_class(c: char, cut: Seq<char>, space: bool) -> bool {
    if space {
        is_white_space(c)
    } else {
        cut.contains(c)
    }
}

fn in_class(c: char, cut: &Vec<char>, space: bool) -> (r: bool)
    ensures
        r == in_trim_class(c, cut@, space),
{
    if space {
        return white_space(c);
    }
    let mut i: usize = 0;
    while i < cut.len()
        invariant
            i <= cut.len(),
            !space,
            forall|k: int| 0 <= k < i ==> cut@[k] != c,
        decreases cut.len() - i,
    {
        if cut[i] == c {
            assert(cut@[i as int] == c);
            assert(cut@.contains(c));
            return true;
        }
        i = i + 1;
    }
    false
}

proof fn lemma_leading(s: Seq<char>, p: spec_fn(char) -> bool, a: int)
    requires
        0 <= a <= s.len(),
        forall|k: int| 0 <= k < a ==> p(s[k]),
        a == s.len() || !p(s[a]),
    ensures
        leading(s, p) == a,
    decreases a,
{
    if a > 0 {
        lemma_leading(s.drop_first(), p, a - 1);
    }
}

proof fn lemma_trailing(s: Seq<char>, p: spec_fn(char) -> bool, b: int)
    requires
        0 <= b <= s.len(),
        forall|k: int| s.len() - b <= k < s.len() ==> p(s[k]),
        b == s.len() || !p(s[s.len() - 1 - b]),
    ensures
        trailing(s, p) == b,
    decreases b,
{
    if b > 0 {
        lemma_trailing(s.drop_last(), p, b - 1);
    }
}

/// `cs` without its leading and trailing characters of the class.
fn trim_vec(cs: &Vec<char>, cut: &Vec<char>, space: bool) -> (r: String)
    ensures
        r@ == trimmed(cs@, |x: char| in_trim_class(x, cut@, space)),
{
    let ghost p = |x: char| in_trim_class(x, cut@, space);
    let n = cs.len();
    let mut a: usize = 0;
    while a < n && in_class(cs[a], cut, space)
        invariant
            a <= n == cs.len(),
            p == (|x: char| in_trim_class(x, cut@, space)),
            forall|k: int| 0 <= k < a ==> p(cs@[k]),
        decreases n - a,
    {
        a = a + 1;
    }
    let mut b: usize = n;
    while b > a && in_class(cs[b - 1], cut, space)
        invariant
            a <= b <= n == cs.len(),
            p == (|x: char| in_trim_class(x, cut@, space)),
            forall|k: int| b <= k < n ==> p(cs@[k]),
        decreases b,
    {
        b = b - 1;
    }
    proof {
        lemma_leading(cs@, p, a as int);
        let rest = cs@.subrange(a as int, n as int);
        lemma_trailing(rest, p, (n - b) as int);
        assert(rest.subrange(0, rest.len() - (n - b)) == cs@.subrange(a as int, b as int));
    }
    string_of(cs, a, b)
}

/// `s` without leading and trailing white space.
pub fn trim_space(s: &str) -> (r: String)
    ensures
        r@ == trimmed(s@, |c: char| is_white_space(c)),
{
    let cs = chars_of(s);
    let none: Vec<char> = Vec::new();
    let r = trim_vec(&cs, &none, true);
    proof {
        assert((|x: char| in_trim_class(x, none@, true)) =~= (|c: char| is_white_space(c)));
    }
    r
}

/// `s` without leading and trailing characters that occur in `cut`.
pub fn trim_cut(s: &str, cut: &Vec<char>) -> (r: String)
    ensures
        r@ == trimmed(s@, |c: char| cut@.contains(c)),
{
    let cs = chars_of(s);
    let r = trim_vec(&cs, cut, false);
    proof {
        assert((|x: char| in_trim_class(x, cut@, false)) =~= (|c: char| cut@.contains(c)));
    }
    r
}

/// The words of `text` joined by one space: white space is collapsed and
/// trimmed.
pub fn normalize_spaces(text: &str) -> (r: String)
    ensures
        r@ == normalized(text@),
{
    let cs = chars_of(text);
    let n = cs.len();
    let mut sq: Vec<char> = Vec::new();
    let mut i: usize = 0;
    while i < n
        invariant
            i <= n == cs.len(),
            sq@ == squeezed(cs@.subrange(0, i as int)),
        decreases n - i,
    {
        let c = cs[i];
        proof {
            assert(cs@.subrange(0, i + 1).drop_last() == cs@.subrange(0, i as int));
        }
        if !white_space(c) {
            sq.push(c);
        } else if i == 0 || !white_space(cs[i - 1]) {
            sq.push(' ');
        }
        i = i + 1;
    }
    assert(cs@.subrange(0, n as int) == cs@);
    let none: Vec<char> = Vec::new();
    let r = trim_vec(&sq, &none, true);
    proof {
        assert((|x: char| in_trim_class(x, none@, true)) =~= (|c: char| is_white_space(c)));
    }
    r
}

/// Whether `pat` occurs in `cs` at position `i`.
fn occurs_at(cs: &Vec<char>, i: usize, pat: &Vec<char>) -> (r: bool)
    requires
        i <= cs.len(),
    ensures
        r == (pat.len() <= cs.len() - i && cs@.subrange(i as int, i + pat.len()) == pat@),
{
    if pat.len() > cs.len() - i {
        return false;
    }
    let mut k: usize = 0;
    while k < pat.len()
        invariant
            k <= pat.len() <= cs.len() - i,
            cs@.subrange(i as int, i + k) == pat@.subrange(0, k as int),
        decreases pat.len() - k,
    {
        if cs[i + k] != pat[k] {
            assert(cs@.subrange(i as int, i + pat.len())[k as int] != pat@[k as int]);
            return false;
        }
        assert(cs@.subrange(i as int, i + k + 1) == cs@.subrange(i as int, i + k).push(cs@[i + k]));
        assert(pat@.subrange(0, k + 1) == pat@.subrange(0, k as int).push(pat@[k as int]));
        k = k + 1;
    }
    assert(pat@.subrange(0, pat.len() as int) == pat@);
    true
}

fn extend_chars(out: &mut Vec<char>, more: &Vec<char>)
    ensures
        final(out)@ == old(out)@ + more@,
{
    let mut k: usize = 0;
    while k < more.len()
        invariant
            k <= more.len(),
            out@ == old(out)@ + more@.subrange(0, k as int),
        decreases more.len() - k,
    {
        out.push(more[k]);
        assert(more@.subrange(0, k + 1) == more@.subrange(0, k as int).push(more@[k as int]));
        k = k + 1;
    }
    assert(more@.subrange(0, more.len() as int) == more@);
}

/// `s` with every occurrence of `old` replaced by `new`.
pub fn replace_all(s: &str, old: &str, new: &str) -> (r: String)
    ensures
        r@ == replaced(s@, old@, new@),
{
    let cs = chars_of(s);
    let os = chars_of(old);
    let ns = chars_of(new);
    let n = cs.len();
    let mut out: Vec<char> = Vec::new();
    let mut i: usize = 0;
    assert(cs@.subrange(0, n as int) == cs@);
    assert(out@ + replaced(cs@, os@, ns@) == replaced(cs@, os@, ns@));
    while i < n
        invariant
            i <= n == cs.len(),
            os@ == old@,
            ns@ == new@,
            out@ + replaced(cs@.subrange(i as int, n as int), os@, ns@) == replaced(cs@, os@, ns@),
        decreases n - i,
    {
        let ghost before = out@;
        let ghost tail = cs@.subrange(i as int, n as int);
        proof {
            if os.len() <= tail.len() {
                assert(tail.subrange(0, os.len() as int) == cs@.subrange(i as int, i + os.len()));
            }
        }
        if os.len() > 0 && occurs_at(&cs, i, &os) {
            extend_chars(&mut out, &ns);
            proof {
                assert(tail.subrange(0, os.len() as int) == os@);
                assert(tail.subrange(os.len() as int, tail.len() as int) == cs@.subrange(
                    i + os.len(),
                    n as int,
                ));
                assert(replaced(tail, os@, ns@) == ns@ + replaced(cs@.subrange(i + os.len(), n as int), os@, ns@));
                assert(before + (ns@ + replaced(cs@.subrange(i + os.len(), n as int), os@, ns@))
                    == out@ + replaced(cs@.subrange(i + os.len(), n as int), os@, ns@));
            }
            i = i + os.len();
        } else {
            if os.len() == 0 {
                extend_chars(&mut out, &ns);
            }
            out.push(cs[i]);
            proof {
                assert(tail.drop_first() == cs@.subrange(i + 1, n as int));
                assert(tail[0] == cs@[i as int]);
                if os.len() == 0 {
                    assert(replaced(tail, os@, ns@) == ns@ + seq![cs@[i as int]] + replaced(tail.drop_first(), os@, ns@));
                    assert(before + (ns@ + seq![cs@[i as int]] + replaced(tail.drop_first(), os@, ns@))
                        == out@ + replaced(cs@.subrange(i + 1, n as int), os@, ns@));
                } else {
                    assert(replaced(tail, os@, ns@) == seq![cs@[i as int]] + replaced(tail.drop_first(), os@, ns@));
                    assert(before + (seq![cs@[i as int]] + replaced(tail.drop_first(), os@, ns@))
                        == out@ + replaced(cs@.subrange(i + 1, n as int), os@, ns@));
                }
            }
            i = i + 1;
        }
    }
    if os.len() == 0 {
        extend_chars(&mut out, &ns);
    }
    proof {
        assert(cs@.subrange(n as int, n as int) == Seq::<char>::empty());
        assert(cs@.subrange(0, n as int) == cs@);
    }
    string_of(&out, 0, out.len())
}

} // verus!
