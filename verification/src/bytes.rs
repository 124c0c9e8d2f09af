//! Byte-sequence utilities shared by the settings codec: ASCII whitespace
//! trimming, first-occurrence search, and splitting a buffer into lines.
use vstd::prelude::*;

verus! {

/// ASCII whitespace, the characters trimmed from settings keys and values.
pub open spec fn is_space(b: u8) -> bool {
    b == 32 || b == 9 || b == 10 || b == 13 || b == 12
}

pub fn byte_is_space(b: u8) -> (r: bool)
    ensures
        r == is_space(b),
{
    b == 32 || b == 9 || b == 10 || b == 13 || b == 12
}

pub open spec fn trim_start(s: Seq<u8>) -> Seq<u8>
    decreases s.len(),
{
    if s.len() > 0 && is_space(s[0]) {
        trim_start(s.drop_first())
    } else {
        s
    }
}

pub open spec fn trim_end(s: Seq<u8>) -> Seq<u8>
    decreases s.len(),
{
    if s.len() > 0 && is_space(s.last()) {
        trim_end(s.drop_last())
    } else {
        s
    }
}

/// A value with ASCII whitespace removed from both ends.
pub open spec fn trim(s: Seq<u8>) -> Seq<u8> {
    trim_end(trim_start(s))
}

pub fn trim_start_vec(v: Vec<u8>) -> (r: Vec<u8>)
    ensures
        r@ == trim_start(v@),
    decreases v@.len(),
{
    if v.len() > 0 && byte_is_space(v[0]) {
        let mut v2 = v;
        v2.remove(0);
        proof {
            assert(v2@ =~= v@.drop_first());
        }
        trim_start_vec(v2)
    } else {
        v
    }
}

pub fn trim_end_vec(v: Vec<u8>) -> (r: Vec<u8>)
    ensures
        r@ == trim_end(v@),
    decreases v@.len(),
{
    if v.len() > 0 && byte_is_space(v[v.len() - 1]) {
        let mut v2 = v;
        v2.pop();
        proof {
            assert(v2@ =~= v@.drop_last());
        }
        trim_end_vec(v2)
    } else {
        v
    }
}

pub fn trim_vec(v: Vec<u8>) -> (r: Vec<u8>)
    ensures
        r@ == trim(v@),
{
    trim_end_vec(trim_start_vec(v))
}

/// A value that trimming leaves alone: empty, or non-space at both ends.
pub proof fn lemma_trim_id(s: Seq<u8>)
    requires
        s.len() == 0 || (!is_space(s[0]) && !is_space(s.last())),
    ensures
        trim(s) == s,
{
}

/// Trimming the end keeps a prefix whose last byte is not a space.
pub proof fn lemma_trim_end_prefix(s: Seq<u8>)
    ensures
        trim_end(s).len() <= s.len(),
        forall|j: int| 0 <= j < trim_end(s).len() ==> trim_end(s)[j] == s[j],
        trim_end(s).len() > 0 ==> !is_space(trim_end(s).last()),
    decreases s.len(),
{
    if s.len() > 0 && is_space(s.last()) {
        lemma_trim_end_prefix(s.drop_last());
        assert(trim_end(s) == trim_end(s.drop_last()));
        assert forall|j: int| 0 <= j < trim_end(s).len() implies trim_end(s)[j] == s[j] by {
            assert(trim_end(s.drop_last())[j] == s.drop_last()[j]);
            assert(s.drop_last()[j] == s[j]);
        }
    }
}

/// Trimming the start keeps a shorter value whose first byte is not a
/// space, and drops at least one byte when the first is a space.
pub proof fn lemma_trim_start_props(s: Seq<u8>)
    ensures
        trim_start(s).len() <= s.len(),
        trim_start(s).len() > 0 ==> !is_space(trim_start(s)[0]),
        s.len() > 0 && is_space(s[0]) ==> trim_start(s).len() < s.len(),
    decreases s.len(),
{
    if s.len() > 0 && is_space(s[0]) {
        lemma_trim_start_props(s.drop_first());
    }
}

/// A trim fixpoint is empty or has non-space ends.
pub proof fn lemma_trim_fixpoint_ends(s: Seq<u8>)
    requires
        trim(s) == s,
        s.len() > 0,
    ensures
        !is_space(s[0]),
        !is_space(s.last()),
{
    lemma_trim_start_props(s);
    lemma_trim_end_prefix(trim_start(s));
    if is_space(s[0]) {
        assert(trim(s).len() < s.len());
    }
    assert(trim_start(s) == s) by {
        if trim_start(s).len() < s.len() {
            assert(trim(s).len() < s.len());
        } else {
            assert(forall|j: int| 0 <= j < s.len() ==> trim_start(s)[j] == trim(s)[j]);
            assert(trim_start(s) =~= s);
        }
    }
    if is_space(s.last()) {
        assert(trim_end(s) == trim_end(s.drop_last()));
        lemma_trim_end_prefix(s.drop_last());
        assert(trim(s).len() < s.len());
    }
}

/// Trimming is idempotent.
pub proof fn lemma_trim_idem(s: Seq<u8>)
    ensures
        trim(trim(s)) == trim(s),
{
    let t = trim(s);
    if t.len() == 0 {
    } else {
        lemma_trim_start_props(s);
        lemma_trim_end_prefix(trim_start(s));
        assert(!is_space(t[0]) && !is_space(t.last())) by {
            assert(t[0] == trim_start(s)[0]);
        }
        lemma_trim_id(t);
    }
}

/// Trimming introduces no byte that was not there.
pub proof fn lemma_trim_start_no_byte(s: Seq<u8>, b: u8)
    requires
        forall|j: int| 0 <= j < s.len() ==> s[j] != b,
    ensures
        forall|j: int| 0 <= j < trim_start(s).len() ==> trim_start(s)[j] != b,
    decreases s.len(),
{
    if s.len() > 0 && is_space(s[0]) {
        assert(forall|j: int| 0 <= j < s.len() - 1 ==> #[trigger] s.drop_first()[j] == s[j + 1]);
        lemma_trim_start_no_byte(s.drop_first(), b);
        assert(trim_start(s) == trim_start(s.drop_first()));
        assert forall|j: int| 0 <= j < trim_start(s).len() implies trim_start(s)[j] != b by {
            assert(trim_start(s.drop_first())[j] != b);
        }
    } else {
        assert forall|j: int| 0 <= j < trim_start(s).len() implies trim_start(s)[j] != b by {
            assert(trim_start(s)[j] == s[j]);
        }
    }
}

pub proof fn lemma_trim_no_byte(s: Seq<u8>, b: u8)
    requires
        forall|j: int| 0 <= j < s.len() ==> s[j] != b,
    ensures
        forall|j: int| 0 <= j < trim(s).len() ==> trim(s)[j] != b,
{
    lemma_trim_start_no_byte(s, b);
    lemma_trim_end_prefix(trim_start(s));
    assert forall|j: int| 0 <= j < trim(s).len() implies trim(s)[j] != b by {
        assert(trim(s)[j] == trim_start(s)[j]);
    }
}

/// Index of the first occurrence of `b` in `s`, if any.
pub open spec fn find_byte(s: Seq<u8>, b: u8) -> Option<int>
    decreases s.len(),
{
    if s.len() == 0 {
        None
    } else if s[0] == b {
        Some(0)
    } else {
        match find_byte(s.drop_first(), b) {
            None => None,
            Some(i) => Some(i + 1),
        }
    }
}

pub proof fn lemma_find_byte(s: Seq<u8>, b: u8)
    ensures
        match find_byte(s, b) {
            Some(i) => 0 <= i < s.len() && s[i] == b && (forall|j: int| 0 <= j < i ==> s[j] != b),
            None => forall|j: int| 0 <= j < s.len() ==> s[j] != b,
        },
    decreases s.len(),
{
    if s.len() == 0 {
    } else if s[0] == b {
    } else {
        lemma_find_byte(s.drop_first(), b);
        match find_byte(s.drop_first(), b) {
            None => {
                assert forall|j: int| 0 <= j < s.len() implies s[j] != b by {
                    if j > 0 {
                        assert(s.drop_first()[j - 1] != b);
                        assert(s.drop_first()[j - 1] == s[j]);
                    }
                }
            }
            Some(i) => {
                assert(s.drop_first()[i] == s[i + 1]);
                assert forall|j: int| 0 <= j < i + 1 implies s[j] != b by {
                    if j > 0 {
                        assert(s.drop_first()[j - 1] != b);
                        assert(s.drop_first()[j - 1] == s[j]);
                    }
                }
            }
        }
    }
}

/// The first occurrence is pinned down by exhibiting it together with a
/// `b`-free prefix.
pub proof fn lemma_find_byte_at(s: Seq<u8>, b: u8, i: int)
    requires
        0 <= i < s.len(),
        s[i] == b,
        forall|j: int| 0 <= j < i ==> s[j] != b,
    ensures
        find_byte(s, b) == Some(i),
{
    lemma_find_byte(s, b);
    match find_byte(s, b) {
        None => {
            assert(s[i] != b);
        }
        Some(k) => {
            if k < i {
                assert(s[k] != b);
            } else if k > i {
                assert(s[i] != b);
            }
        }
    }
}

pub proof fn lemma_find_byte_none(s: Seq<u8>, b: u8)
    requires
        forall|j: int| 0 <= j < s.len() ==> s[j] != b,
    ensures
        find_byte(s, b) is None,
{
    lemma_find_byte(s, b);
    match find_byte(s, b) {
        None => {}
        Some(k) => {
            assert(s[k] != b);
        }
    }
}

pub fn find_byte_in(s: &[u8], b: u8) -> (r: Option<usize>)
    ensures
        match r {
            Some(i) => i < s@.len() && find_byte(s@, b) == Some(i as int),
            None => find_byte(s@, b) is None,
        },
{
    let mut i: usize = 0;
    while i < s.len()
        invariant
            0 <= i <= s@.len(),
            forall|j: int| 0 <= j < i ==> s@[j] != b,
        decreases s@.len() - i,
    {
        if s[i] == b {
            proof {
                lemma_find_byte_at(s@, b, i as int);
            }
            return Some(i);
        }
        i = i + 1;
    }
    proof {
        lemma_find_byte_none(s@, b);
    }
    None
}

pub fn bytes_eq(a: &[u8], b: &[u8]) -> (r: bool)
    ensures
        r == (a@ == b@),
{
    if a.len() != b.len() {
        return false;
    }
    let mut i: usize = 0;
    while i < a.len()
        invariant
            a@.len() == b@.len(),
            0 <= i <= a@.len(),
            forall|j: int| 0 <= j < i ==> a@[j] == b@[j],
        decreases a@.len() - i,
    {
        if a[i] != b[i] {
            return false;
        }
        i = i + 1;
    }
    proof {
        assert(a@ =~= b@);
    }
    true
}

pub fn copy_range(s: &[u8], from: usize, to: usize) -> (r: Vec<u8>)
    requires
        from <= to <= s@.len(),
    ensures
        r@ == s@.subrange(from as int, to as int),
{
    let mut r: Vec<u8> = Vec::new();
    let mut i: usize = from;
    while i < to
        invariant
            from <= i <= to <= s@.len(),
            r@ == s@.subrange(from as int, i as int),
        decreases to - i,
    {
        r.push(s[i]);
        proof {
            assert(r@ =~= s@.subrange(from as int, i + 1 as int));
        }
        i = i + 1;
    }
    r
}

pub fn push_bytes(out: &mut Vec<u8>, s: &[u8])
    ensures
        final(out)@ == old(out)@ + s@,
{
    let mut i: usize = 0;
    while i < s.len()
        invariant
            0 <= i <= s@.len(),
            out@ == old(out)@ + s@.subrange(0, i as int),
        decreases s@.len() - i,
    {
        out.push(s[i]);
        proof {
            assert(out@ =~= old(out)@ + s@.subrange(0, i + 1 as int));
        }
        i = i + 1;
    }
    proof {
        assert(old(out)@ + s@.subrange(0, s@.len() as int) =~= old(out)@ + s@);
    }
}

/// A line with one trailing carriage return removed, as the line reader of
/// the settings loader does.
pub open spec fn strip_cr(s: Seq<u8>) -> Seq<u8> {
    if s.len() > 0 && s.last() == 13 {
        s.drop_last()
    } else {
        s
    }
}

/// The lines of a buffer: newline-separated, the terminator not included,
/// one trailing carriage return removed from each line, and no empty final
/// line when the buffer ends with a newline.
pub open spec fn split_lines(d: Seq<u8>) -> Seq<Seq<u8>>
    decreases d.len(),
    via split_lines_decreases
{
    if d.len() == 0 {
        Seq::empty()
    } else {
        match find_byte(d, 10) {
            None => seq![strip_cr(d)],
            Some(i) => seq![strip_cr(d.take(i))] + split_lines(d.skip(i + 1)),
        }
    }
}

#[via_fn]
proof fn split_lines_decreases(d: Seq<u8>) {
    lemma_find_byte(d, 10);
}

/// Splitting a buffer that starts with a newline-free line.
pub proof fn lemma_split_lines_concat(a: Seq<u8>, rest: Seq<u8>)
    requires
        forall|j: int| 0 <= j < a.len() ==> a[j] != 10,
    ensures
        split_lines(a + seq![10u8] + rest) == seq![strip_cr(a)] + split_lines(rest),
{
    let d = a + seq![10u8] + rest;
    assert(d[a.len() as int] == 10);
    assert(forall|j: int| 0 <= j < a.len() ==> d[j] == a[j] && d[j] != 10);
    lemma_find_byte_at(d, 10, a.len() as int);
    assert(d.take(a.len() as int) =~= a);
    assert(d.skip(a.len() + 1 as int) =~= rest);
}

/// No line produced by `split_lines` contains a newline.
pub proof fn lemma_split_lines_no_nl(d: Seq<u8>)
    ensures
        forall|k: int|
            0 <= k < split_lines(d).len() ==> (forall|j: int|
                0 <= j < #[trigger] split_lines(d)[k].len() ==> split_lines(d)[k][j] != 10),
    decreases d.len(),
{
    if d.len() == 0 {
    } else {
        lemma_find_byte(d, 10);
        match find_byte(d, 10) {
            None => {
                assert(forall|j: int| 0 <= j < strip_cr(d).len() ==> strip_cr(d)[j] == d[j]);
            }
            Some(i) => {
                lemma_split_lines_no_nl(d.skip(i + 1));
                let first = strip_cr(d.take(i));
                assert(forall|j: int| 0 <= j < first.len() ==> first[j] == d[j] && first[j] != 10);
                let rest = split_lines(d.skip(i + 1));
                assert(forall|k: int|
                    1 <= k < split_lines(d).len() ==> split_lines(d)[k] == rest[k - 1]);
            }
        }
    }
}

/// The views of a vector of byte vectors.
pub open spec fn views_of(r: Seq<Vec<u8>>) -> Seq<Seq<u8>> {
    r.map_values(|v: Vec<u8>| v@)
}

pub fn split_lines_vec(d: &[u8]) -> (r: Vec<Vec<u8>>)
    ensures
        views_of(r@) == split_lines(d@),
{
    let mut r: Vec<Vec<u8>> = Vec::new();
    let mut start: usize = 0;
    let mut i: usize = 0;
    proof {
        assert(d@.skip(0) =~= d@);
        assert(views_of(r@) + split_lines(d@) =~= split_lines(d@));
    }
    while i < d.len()
        invariant
            0 <= start <= i <= d@.len(),
            forall|j: int| start <= j < i ==> d@[j] != 10,
            split_lines(d@) == views_of(r@) + split_lines(d@.skip(start as int)),
        decreases d@.len() - i,
    {
        if d[i] == 10 {
            let mut line = copy_range(d, start, i);
            if line.len() > 0 && line[line.len() - 1] == 13 {
                line.pop();
            }
            proof {
                let a = d@.subrange(start as int, i as int);
                assert(line@ == strip_cr(a));
                assert(d@.skip(start as int) =~= a + seq![10u8] + d@.skip(i + 1));
                lemma_split_lines_concat(a, d@.skip(i + 1));
                assert(views_of(r@.push(line)) =~= views_of(r@).push(line@));
                assert(views_of(r@) + seq![strip_cr(a)] + split_lines(d@.skip(i + 1)) =~= (views_of(
                    r@,
                ) + seq![strip_cr(a)]) + split_lines(d@.skip(i + 1)));
                assert(views_of(r@) + seq![strip_cr(a)] =~= views_of(r@.push(line)));
            }
            r.push(line);
            start = i + 1;
        }
        i = i + 1;
    }
    if start < d.len() {
        let mut line = copy_range(d, start, d.len());
        if line.len() > 0 && line[line.len() - 1] == 13 {
            line.pop();
        }
        proof {
            let a = d@.skip(start as int);
            assert(a =~= d@.subrange(start as int, d@.len() as int));
            assert(line@ == strip_cr(a));
            lemma_find_byte_none(a, 10);
            assert(split_lines(a) == seq![strip_cr(a)]);
            assert(views_of(r@.push(line)) =~= views_of(r@).push(line@));
            assert(views_of(r@) + seq![strip_cr(a)] =~= views_of(r@.push(line)));
        }
        r.push(line);
    } else {
        proof {
            assert(d@.skip(start as int) =~= Seq::<u8>::empty());
            assert(split_lines(d@) =~= views_of(r@));
        }
    }
    proof {
        assert(views_of(r@) =~= split_lines(d@));
    }
    r
}

} // verus!
