//! Character-level helpers on names and paths.
use vstd::prelude::*;
use vstd::string::*;
use vstd::std_specs::iter::IteratorSpec;

verus! {

broadcast use vstd::string::axiom_spec_iter, vstd::string::next_postcondition;

/// The characters of `s`, in order.
pub fn chars_of(s: &str) -> (r: Vec<char>)
    ensures
        r@ == s@,
{
    let mut it = s.chars();
    let mut out: Vec<char> = Vec::new();
    loop
        invariant
            it.obeys_prophetic_iter_laws(),
            out@ + it.remaining() == s@,
        ensures
            out@ == s@,
        decreases s@.len() - out@.len(),
    {
        match it.next() {
            Some(c) => {
                proof {
                    assert(out@.push(c) + it.remaining() =~= s@);
                }
                out.push(c);
            },
            None => {
                assert(out@ =~= s@);
                break;
            },
        }
    }
    out
}

/// Element-wise equality of two character vectors.
pub fn chars_eq(a: &Vec<char>, b: &Vec<char>) -> (r: bool)
    ensures
        r == (a@ == b@),
{
    if a.len() != b.len() {
        return false;
    }
    let mut i: usize = 0;
    while i < a.len()
        invariant
            a@.len() == b@.len(),
            i <= a@.len(),
            forall|j: int| 0 <= j < i ==> a@[j] == b@[j],
        decreases a@.len() - i,
    {
        if a[i] != b[i] {
            return false;
        }
        i = i + 1;
    }
    assert(a@ =~= b@);
    true
}

/// A separator between the scopes of a qualified name.
pub open spec fn is_scope_sep(c: char) -> bool {
    c == '.' || c == ':'
}

/// `name` is the whole of `fqn`, or its tail right after a `.` or `:`.
pub open spec fn is_qualified_suffix(fqn: Seq<char>, name: Seq<char>) -> bool {
    &&& name.len() <= fqn.len()
    &&& fqn.subrange(fqn.len() - name.len(), fqn.len() as int) == name
    &&& (name.len() == fqn.len() || is_scope_sep(fqn[fqn.len() - name.len() - 1]))
}

pub fn qualified_suffix(fqn: &Vec<char>, name: &Vec<char>) -> (r: bool)
    ensures
        r == is_qualified_suffix(fqn@, name@),
{
    if name.len() > fqn.len() {
        return false;
    }
    let off = fqn.len() - name.len();
    let mut i: usize = 0;
    while i < name.len()
        invariant
            off + name.len() == fqn.len(),
            i <= name@.len(),
            forall|j: int| 0 <= j < i ==> fqn@[off + j] == name@[j],
        decreases name@.len() - i,
    {
        if fqn[off + i] != name[i] {
            assert(fqn@.subrange(off as int, fqn@.len() as int)[i as int] != name@[i as int]);
            return false;
        }
        i = i + 1;
    }
    assert(fqn@.subrange(off as int, fqn@.len() as int) =~= name@);
    off == 0 || fqn[off - 1] == '.' || fqn[off - 1] == ':'
}

/// Index just past the last `/` of `p`, or 0 when there is none.
pub open spec fn dir_end(p: Seq<char>) -> nat
    decreases p.len(),
{
    if p.len() == 0 {
        0
    } else if p.last() == '/' {
        (p.len() - 1) as nat
    } else {
        dir_end(p.drop_last())
    }
}

/// The directory part of a path: everything before its last `/` (empty when none).
pub open spec fn parent_dir(p: Seq<char>) -> Seq<char> {
    p.subrange(0, dir_end(p) as int)
}

pub fn parent_dir_of(p: &Vec<char>) -> (r: Vec<char>)
    ensures
        r@ == parent_dir(p@),
{
    let mut end: usize = p.len();
    assert(p@.subrange(0, end as int) =~= p@);
    while end > 0 && p[end - 1] != '/'
        invariant
            end <= p@.len(),
            dir_end(p@) == dir_end(p@.subrange(0, end as int)),
        decreases end,
    {
        assert(p@.subrange(0, end as int).drop_last() =~= p@.subrange(0, end - 1));
        end = end - 1;
    }
    let ghost q = p@.subrange(0, end as int);
    proof {
        if end > 0 {
            assert(q.last() == '/');
        }
        assert(dir_end(q) == if end == 0 { 0 } else { end - 1 });
    }
    let stop: usize = if end == 0 { 0 } else { end - 1 };
    let mut out: Vec<char> = Vec::new();
    let mut i: usize = 0;
    while i < stop
        invariant
            stop <= p@.len(),
            i <= stop,
            out@ == p@.subrange(0, i as int),
        decreases stop - i,
    {
        out.push(p[i]);
        i = i + 1;
        assert(out@ =~= p@.subrange(0, i as int));
    }
    out
}

/// The lower-case form that `str::to_lowercase` gives.
pub uninterp spec fn lower_of(s: Seq<char>) -> Seq<char>;

/// Relies on `str::to_lowercase`: the result depends on the characters alone, and
/// the empty string stays empty.
#[verifier::external_body]
pub(crate) fn lowercase(s: &str) -> (r: String)
    ensures
        r@ == lower_of(s@),
        s@.len() == 0 ==> r@.len() == 0,
{
    s.to_lowercase()
}

/// `hay` holds `needle` as a contiguous run.
pub open spec fn contains_seq(hay: Seq<char>, needle: Seq<char>) -> bool {
    exists|k: int|
        0 <= k && k + needle.len() <= hay.len() && #[trigger] hay.subrange(k, k + needle.len())
            == needle
}

pub open spec fn starts_with_seq(s: Seq<char>, prefix: Seq<char>) -> bool {
    prefix.len() <= s.len() && s.subrange(0, prefix.len() as int) == prefix
}

pub open spec fn ends_with_seq(s: Seq<char>, suffix: Seq<char>) -> bool {
    suffix.len() <= s.len() && s.subrange(s.len() - suffix.len(), s.len() as int) == suffix
}

fn matches_at(hay: &Vec<char>, needle: &Vec<char>, k: usize) -> (r: bool)
    requires
        k + needle@.len() <= hay@.len(),
    ensures
        r == (hay@.subrange(k as int, k + needle@.len()) == needle@),
{
    let mut i: usize = 0;
    while i < needle.len()
        invariant
            k + needle.len() <= hay.len(),
            i <= needle@.len(),
            forall|j: int| 0 <= j < i ==> hay@[k + j] == needle@[j],
        decreases needle@.len() - i,
    {
        if hay[k + i] != needle[i] {
            assert(hay@.subrange(k as int, k + needle@.len())[i as int] != needle@[i as int]);
            return false;
        }
        i = i + 1;
    }
    assert(hay@.subrange(k as int, k + needle@.len()) =~= needle@);
    true
}

pub fn contains_chars(hay: &Vec<char>, needle: &Vec<char>) -> (r: bool)
    ensures
        r == contains_seq(hay@, needle@),
{
    if needle.len() > hay.len() {
        return false;
    }
    let last = hay.len() - needle.len();
    let mut k: usize = 0;
    loop
        invariant
            k <= last,
            last + needle@.len() == hay@.len(),
            forall|m: int|
                0 <= m < k ==> #[trigger] hay@.subrange(m, m + needle@.len()) != needle@,
        ensures
            forall|m: int|
                0 <= m <= last ==> #[trigger] hay@.subrange(m, m + needle@.len()) != needle@,
        decreases last - k,
    {
        if matches_at(hay, needle, k) {
            return true;
        }
        if k == last {
            break;
        }
        k = k + 1;
    }
    false
}

pub fn starts_with_chars(s: &Vec<char>, prefix: &Vec<char>) -> (r: bool)
    ensures
        r == starts_with_seq(s@, prefix@),
{
    if prefix.len() > s.len() {
        return false;
    }
    matches_at(s, prefix, 0)
}

pub fn ends_with_chars(s: &Vec<char>, suffix: &Vec<char>) -> (r: bool)
    ensures
        r == ends_with_seq(s@, suffix@),
{
    if suffix.len() > s.len() {
        return false;
    }
    matches_at(s, suffix, s.len() - suffix.len())
}

} // verus!

verus! {

pub open spec fn digit_char(d: nat) -> char {
    (('0' as u8) + d) as char
}

/// `n` in decimal, without leading zeros ("0" for zero).
pub open spec fn decimal(n: nat) -> Seq<char>
    decreases n,
{
    if n < 10 {
        seq![digit_char(n)]
    } else {
        decimal(n / 10).push(digit_char(n % 10))
    }
}

fn digit_str(d: usize) -> (r: &'static str)
    requires
        d < 10,
    ensures
        r@ == seq![digit_char(d as nat)],
{
    let digits = "0123456789";
    proof {
        reveal_strlit("0123456789");
    }
    let r = digits.substring_char(d, d + 1);
    assert(r@ =~= seq![digit_char(d as nat)]);
    r
}

/// Renders `n` in decimal.
pub fn to_decimal(n: usize) -> (r: String)
    ensures
        r@ == decimal(n as nat),
    decreases n,
{
    if n < 10 {
        String::from_str(digit_str(n))
    } else {
        let mut s = to_decimal(n / 10);
        s.append(digit_str(n % 10));
        s
    }
}

} // verus!

verus! {

/// `a` sorts strictly before `b`, character by character.
pub open spec fn seq_lt(a: Seq<char>, b: Seq<char>) -> bool
    decreases a.len(),
{
    if b.len() == 0 {
        false
    } else if a.len() == 0 {
        true
    } else if a[0] != b[0] {
        a[0] < b[0]
    } else {
        seq_lt(a.drop_first(), b.drop_first())
    }
}

/// Strictly increasing: sorted, with no repeats.
pub open spec fn strictly_sorted(s: Seq<Seq<char>>) -> bool {
    forall|i: int, j: int| 0 <= i < j < s.len() ==> seq_lt(#[trigger] s[i], #[trigger] s[j])
}

proof fn lemma_lt_trans(a: Seq<char>, b: Seq<char>, c: Seq<char>)
    requires
        seq_lt(a, b),
        seq_lt(b, c),
    ensures
        seq_lt(a, c),
    decreases a.len(),
{
    if a.len() > 0 && b.len() > 0 && c.len() > 0 && a[0] == b[0] && b[0] == c[0] {
        lemma_lt_trans(a.drop_first(), b.drop_first(), c.drop_first());
    }
}

proof fn lemma_lt_total(a: Seq<char>, b: Seq<char>)
    ensures
        a == b || seq_lt(a, b) || seq_lt(b, a),
    decreases a.len(),
{
    if a.len() > 0 && b.len() > 0 && a[0] == b[0] {
        lemma_lt_total(a.drop_first(), b.drop_first());
        if a.drop_first() == b.drop_first() {
            assert(a =~= seq![a[0]] + a.drop_first());
            assert(b =~= seq![b[0]] + b.drop_first());
        }
    } else if a.len() == 0 && b.len() == 0 {
        assert(a =~= b);
    }
}

fn chars_lt(a: &Vec<char>, b: &Vec<char>) -> (r: bool)
    ensures
        r == seq_lt(a@, b@),
{
    let mut i: usize = 0;
    assert(a@.subrange(0, a@.len() as int) =~= a@);
    assert(b@.subrange(0, b@.len() as int) =~= b@);
    while i < a.len() && i < b.len() && a[i] == b[i]
        invariant
            i <= a@.len() && i <= b@.len(),
            forall|j: int| 0 <= j < i ==> a@[j] == b@[j],
            seq_lt(a@, b@) == seq_lt(a@.subrange(i as int, a@.len() as int), b@.subrange(i as int, b@.len() as int)),
        decreases a@.len() - i,
    {
        let ghost x = a@.subrange(i as int, a@.len() as int);
        let ghost y = b@.subrange(i as int, b@.len() as int);
        assert(x.drop_first() =~= a@.subrange(i + 1, a@.len() as int));
        assert(y.drop_first() =~= b@.subrange(i + 1, b@.len() as int));
        i = i + 1;
    }
    if i == b.len() {
        false
    } else if i == a.len() {
        true
    } else {
        a[i] < b[i]
    }
}

/// `x` is one of the first `k` of `names`.
pub open spec fn named_in(x: Seq<char>, names: Seq<String>, k: int) -> bool {
    exists|m: int| 0 <= m < k && names[m]@ == x
}

/// The distinct names of `names`, in increasing order.
pub fn sort_dedup(names: Vec<String>) -> (r: Vec<String>)
    ensures
        strictly_sorted(r@.map_values(|s: String| s@)),
        forall|i: int| 0 <= i < names@.len() ==> r@.map_values(|s: String| s@).contains(#[trigger] names@[i]@),
        forall|j: int| 0 <= j < r@.len() ==> named_in((#[trigger] r@[j])@, names@, names@.len() as int),
{
    let mut out: Vec<String> = Vec::new();
    let mut keys: Vec<Vec<char>> = Vec::new();
    let mut i: usize = 0;
    while i < names.len()
        invariant
            i <= names@.len(),
            keys@.len() == out@.len(),
            forall|j: int| 0 <= j < keys@.len() ==> (#[trigger] keys@[j])@ == out@[j]@,
            strictly_sorted(out@.map_values(|s: String| s@)),
            forall|m: int| 0 <= m < i ==> out@.map_values(|s: String| s@).contains(#[trigger] names@[m]@),
            forall|j: int| 0 <= j < out@.len() ==> named_in((#[trigger] out@[j])@, names@, i as int),
        decreases names@.len() - i,
    {
        let k = chars_of(names[i].as_str());
        let mut p: usize = 0;
        while p < keys.len() && chars_lt(&keys[p], &k)
            invariant
                p <= keys@.len(),
                keys@.len() == out@.len(),
                forall|j: int| 0 <= j < p ==> seq_lt((#[trigger] keys@[j])@, k@),
            decreases keys@.len() - p,
        {
            p = p + 1;
        }
        let ghost old_view = out@.map_values(|s: String| s@);
        let ghost old_out = out@;
        let ghost old_keys = keys@;
        if p < keys.len() && chars_eq(&keys[p], &k) {
            assert(old_view[p as int] == names@[i as int]@);
        } else {
            proof {
                if p < keys@.len() {
                    lemma_lt_total(keys@[p as int]@, k@);
                }
            }
            out.insert(p, names[i].clone());
            keys.insert(p, k);
            proof {
                let v = out@.map_values(|s: String| s@);
                assert(v =~= old_view.insert(p as int, names@[i as int]@));
                assert forall|a: int, b: int| 0 <= a < b < v.len() implies seq_lt(#[trigger] v[a], #[trigger] v[b]) by {
                    if b < p {
                        assert(v[a] == old_view[a] && v[b] == old_view[b]);
                    } else if b == p {
                        assert(v[a] == old_view[a]);
                        assert(seq_lt(keys@[a]@, k@));
                    } else if a < p {
                        assert(v[a] == old_view[a] && v[b] == old_view[b - 1]);
                    } else if a == p {
                        assert(v[b] == old_view[b - 1]);
                        if b - 1 > p {
                            assert(seq_lt(old_view[p as int], old_view[b - 1]));
                            lemma_lt_trans(k@, old_view[p as int], old_view[b - 1]);
                        }
                    } else {
                        assert(v[a] == old_view[a - 1] && v[b] == old_view[b - 1]);
                    }
                }
                assert forall|j: int| 0 <= j < keys@.len() implies (#[trigger] keys@[j])@ == out@[j]@ by {
                    if j < p {
                        assert(keys@[j] == old_keys[j] && out@[j] == old_out[j]);
                    } else if j > p {
                        assert(keys@[j] == old_keys[j - 1] && out@[j] == old_out[j - 1]);
                    }
                }
            }
        }
        proof {
            let v = out@.map_values(|s: String| s@);
            assert forall|m: int| 0 <= m < i + 1 implies v.contains(#[trigger] names@[m]@) by {
                if m == i {
                    assert(v[p as int] == names@[i as int]@);
                } else {
                    let w = choose|w: int| 0 <= w < old_view.len() && old_view[w] == names@[m]@;
                    if out@.len() == old_out.len() {
                        assert(v[w] == old_view[w]);
                    } else if w < p {
                        assert(v[w] == old_view[w]);
                    } else {
                        assert(v[w + 1] == old_view[w]);
                    }
                }
            }
            assert forall|j: int| 0 <= j < out@.len() implies named_in((#[trigger] out@[j])@, names@, i + 1) by {
                if out@.len() == old_out.len() {
                    assert(out@[j] == old_out[j]);
                } else if j < p {
                    assert(out@[j] == old_out[j]);
                } else if j == p {
                    assert(names@[i as int]@ == out@[j]@);
                } else {
                    assert(out@[j] == old_out[j - 1]);
                }
            }
        }
        i = i + 1;
    }
    out
}

} // verus!

verus! {

/// The last component of a path: what follows its last `/`.
pub open spec fn base_name(p: Seq<char>) -> Seq<char>
    decreases p.len(),
{
    if p.len() == 0 || p.last() == '/' {
        Seq::empty()
    } else {
        base_name(p.drop_last()).push(p.last())
    }
}

pub fn base_name_of(p: &Vec<char>) -> (r: Vec<char>)
    ensures
        r@ == base_name(p@),
{
    let mut start: usize = p.len();
    assert(p@.subrange(0, start as int) =~= p@);
    while start > 0 && p[start - 1] != '/'
        invariant
            start <= p@.len(),
            base_name(p@) == base_name(p@.subrange(0, start as int)) + p@.subrange(start as int, p@.len() as int),
        decreases start,
    {
        let ghost q = p@.subrange(0, start as int);
        assert(q.drop_last() =~= p@.subrange(0, start - 1));
        assert(base_name(q) == base_name(q.drop_last()).push(q.last()));
        assert(base_name(q.drop_last()).push(q.last()) + p@.subrange(start as int, p@.len() as int)
            =~= base_name(p@.subrange(0, start - 1)) + p@.subrange(start - 1, p@.len() as int));
        start = start - 1;
    }
    assert(base_name(p@.subrange(0, start as int)) =~= Seq::<char>::empty());
    let mut out: Vec<char> = Vec::new();
    let mut i: usize = start;
    while i < p.len()
        invariant
            start <= i <= p@.len(),
            out@ == p@.subrange(start as int, i as int),
        decreases p@.len() - i,
    {
        out.push(p[i]);
        i = i + 1;
        assert(out@ =~= p@.subrange(start as int, i as int));
    }
    assert(out@ =~= base_name(p@));
    out
}

} // verus!
