use vstd::prelude::*;

use crate::text::{
    chars_of, digits_value, is_digit, lemma_zero_padded, string_of, zero_padded, zero_padded_chars,
};

verus! {

/// Width to which the running number of a downloaded image is padded with zeros.
pub const NUMBER_WIDTH: usize = 3;

/// The part of `s` after its last `c`; all of `s` where `c` does not occur.
pub open spec fn after_last(s: Seq<char>, c: char) -> Seq<char>
    decreases s.len(),
{
    if s.len() == 0 {
        s
    } else if s.last() == c {
        Seq::empty()
    } else {
        after_last(s.drop_last(), c).push(s.last())
    }
}

/// The part of `s` before its first `c`; all of `s` where `c` does not occur.
pub open spec fn before_first(s: Seq<char>, c: char) -> Seq<char>
    decreases s.len(),
{
    if s.len() == 0 {
        s
    } else if s[0] == c {
        Seq::empty()
    } else {
        seq![s[0]] + before_first(s.drop_first(), c)
    }
}

/// The name an image URL gives its file: its last path segment, without the query.
pub open spec fn url_stem(url: Seq<char>) -> Seq<char> {
    before_first(after_last(url, '/'), '?')
}

/// The file name under which the image numbered `number` (counting from one) is stored:
/// the number padded to three digits, then `_` and the URL's stem, or `.jpg` where the
/// stem is empty.
pub open spec fn stored_name(number: nat, url: Seq<char>) -> Seq<char> {
    let stem = url_stem(url);
    if stem.len() > 0 {
        zero_padded(number, NUMBER_WIDTH as nat) + seq!['_'] + stem
    } else {
        zero_padded(number, NUMBER_WIDTH as nat) + seq!['.', 'j', 'p', 'g']
    }
}

proof fn lemma_after_last_is_skip(s: Seq<char>, c: char, k: int)
    requires
        0 <= k <= s.len(),
        forall|j: int| k <= j < s.len() ==> s[j] != c,
        k == 0 || s[k - 1] == c,
    ensures
        after_last(s, c) == s.skip(k),
    decreases s.len(),
{
    if s.len() == 0 {
        assert(s.skip(k) =~= s);
    } else if k == s.len() {
        assert(s.skip(k) =~= Seq::<char>::empty());
    } else {
        assert(s.last() != c);
        lemma_after_last_is_skip(s.drop_last(), c, k);
        assert(s.drop_last().skip(k).push(s.last()) =~= s.skip(k));
    }
}

proof fn lemma_before_first_is_take(s: Seq<char>, c: char, k: int)
    requires
        0 <= k <= s.len(),
        forall|j: int| 0 <= j < k ==> s[j] != c,
        k == s.len() || s[k] == c,
    ensures
        before_first(s, c) == s.take(k),
    decreases s.len(),
{
    if s.len() == 0 {
        assert(s.take(k) =~= s);
    } else if k == 0 {
        assert(s.take(k) =~= Seq::<char>::empty());
    } else {
        assert(s[0] != c);
        lemma_before_first_is_take(s.drop_first(), c, k - 1);
        assert(seq![s[0]] + s.drop_first().take(k - 1) =~= s.take(k));
    }
}

/// The stem of an image URL: the text after the last `/`, cut at the first `?`.
pub fn stem_of(url: &str) -> (stem: Vec<char>)
    ensures
        stem@ == url_stem(url@),
{
    let v = chars_of(url);
    let mut start: usize = v.len();
    while start > 0 && v[start - 1] != '/'
        invariant
            start <= v.len(),
            forall|j: int| start <= j < v.len() ==> v@[j] != '/',
        decreases start,
    {
        start = start - 1;
    }
    proof {
        lemma_after_last_is_skip(v@, '/', start as int);
    }
    let mut end: usize = start;
    while end < v.len() && v[end] != '?'
        invariant
            start <= end <= v.len(),
            forall|j: int| start <= j < end ==> v@[j] != '?',
        decreases v.len() - end,
    {
        end = end + 1;
    }
    let ghost segment = v@.skip(start as int);
    proof {
        lemma_before_first_is_take(segment, '?', end - start);
    }
    let mut stem: Vec<char> = Vec::new();
    let mut i: usize = start;
    while i < end
        invariant
            start <= i <= end <= v.len(),
            stem@ == v@.subrange(start as int, i as int),
        decreases end - i,
    {
        stem.push(v[i]);
        i = i + 1;
        assert(stem@ =~= v@.subrange(start as int, i as int));
    }
    assert(segment.take(end - start) =~= v@.subrange(start as int, end as int));
    stem
}

/// The file name under which the image numbered `number` (counting from one) is stored.
pub fn file_name(number: usize, url: &str) -> (name: String)
    ensures
        name@ == stored_name(number as nat, url@),
{
    let stem = stem_of(url);
    let mut v = zero_padded_chars(number as u64, NUMBER_WIDTH);
    let ghost padded = v@;
    if stem.len() > 0 {
        v.push('_');
        let mut i: usize = 0;
        while i < stem.len()
            invariant
                i <= stem.len(),
                v@ == padded + seq!['_'] + stem@.take(i as int),
            decreases stem.len() - i,
        {
            v.push(stem[i]);
            i = i + 1;
            assert(v@ =~= padded + seq!['_'] + stem@.take(i as int));
        }
        assert(stem@.take(stem.len() as int) =~= stem@);
    } else {
        v.push('.');
        v.push('j');
        v.push('p');
        v.push('g');
        assert(v@ =~= padded + seq!['.', 'j', 'p', 'g']);
    }
    string_of(&v)
}

/// Images with different numbers are stored under different file names, whatever their
/// URLs: one run never writes two images to the same file.
pub proof fn lemma_stored_names_distinct(i: nat, j: nat, url_i: Seq<char>, url_j: Seq<char>)
    requires
        i != j,
    ensures
        stored_name(i, url_i) != stored_name(j, url_j),
{
    let a = zero_padded(i, NUMBER_WIDTH as nat);
    let b = zero_padded(j, NUMBER_WIDTH as nat);
    lemma_zero_padded(i, NUMBER_WIDTH as nat);
    lemma_zero_padded(j, NUMBER_WIDTH as nat);
    let x = stored_name(i, url_i);
    let y = stored_name(j, url_j);
    if x == y {
        assert(x[a.len() as int] == '_' || x[a.len() as int] == '.');
        assert(y[b.len() as int] == '_' || y[b.len() as int] == '.');
        if a.len() < b.len() {
            assert(y[a.len() as int] == b[a.len() as int]);
            assert(is_digit(b[a.len() as int]));
        } else if b.len() < a.len() {
            assert(x[b.len() as int] == a[b.len() as int]);
            assert(is_digit(a[b.len() as int]));
        } else {
            assert(x.take(a.len() as int) =~= a);
            assert(y.take(b.len() as int) =~= b);
            assert(digits_value(a) == digits_value(b));
        }
    }
}

proof fn lemma_after_last_index(s: Seq<char>, c: char) -> (k: int)
    ensures
        0 <= k <= s.len(),
        forall|j: int| k <= j < s.len() ==> s[j] != c,
        k == 0 || s[k - 1] == c,
        after_last(s, c) == s.skip(k),
    decreases s.len(),
{
    if s.len() == 0 {
        assert(s.skip(0) =~= s);
        0
    } else if s.last() == c {
        assert(s.skip(s.len() as int) =~= Seq::<char>::empty());
        s.len() as int
    } else {
        let k = lemma_after_last_index(s.drop_last(), c);
        assert(s.drop_last().skip(k).push(s.last()) =~= s.skip(k));
        assert forall|j: int| k <= j < s.len() implies s[j] != c by {
            if j < s.len() - 1 {
                assert(s[j] == s.drop_last()[j]);
            }
        }
        if k > 0 {
            assert(s[k - 1] == s.drop_last()[k - 1]);
        }
        k
    }
}

proof fn lemma_before_first_index(s: Seq<char>, c: char) -> (m: int)
    ensures
        0 <= m <= s.len(),
        forall|j: int| 0 <= j < m ==> s[j] != c,
        m == s.len() || s[m] == c,
        before_first(s, c) == s.take(m),
    decreases s.len(),
{
    if s.len() == 0 {
        assert(s.take(0) =~= s);
        0
    } else if s[0] == c {
        assert(s.take(0) =~= Seq::<char>::empty());
        0
    } else {
        let m = lemma_before_first_index(s.drop_first(), c);
        assert(seq![s[0]] + s.drop_first().take(m) =~= s.take(m + 1));
        assert forall|j: int| 0 <= j < m + 1 implies s[j] != c by {
            if j > 0 {
                assert(s[j] == s.drop_first()[j - 1]);
            }
        }
        if m + 1 < s.len() {
            assert(s[m + 1] == s.drop_first()[m]);
        }
        m + 1
    }
}

/// The stem of a URL is the stretch that starts right after the URL's last `/` (or at its
/// start, where it has none) and runs up to the first `?` after that (or to the end): it
/// holds neither `/` nor `?`, and all of the segment before any query.
pub proof fn lemma_stem_is_last_segment_before_query(url: Seq<char>)
    ensures
        exists|a: int, b: int|
            #![trigger url.subrange(a, b)]
            0 <= a <= b <= url.len()
            && url_stem(url) == url.subrange(a, b)
            && (a == 0 || url[a - 1] == '/')
            && (forall|j: int| a <= j < url.len() ==> url[j] != '/')
            && (b == url.len() || url[b] == '?')
            && (forall|j: int| a <= j < b ==> url[j] != '?'),
{
    let a = lemma_after_last_index(url, '/');
    let seg = url.skip(a);
    let m = lemma_before_first_index(seg, '?');
    let b = a + m;
    assert(seg.take(m) =~= url.subrange(a, b));
    assert forall|j: int| a <= j < b implies url[j] != '?' by {
        assert(url[j] == seg[j - a]);
    }
    if b < url.len() {
        assert(url[b] == seg[m]);
    }
    assert(url_stem(url) == url.subrange(a, b));
}

/// A stored name is the number, zero-padded to three digits, followed by `_` and the whole
/// stem of the URL, or by `.jpg` where the stem is empty.
pub proof fn lemma_stored_name_shape(number: nat, url: Seq<char>)
    ensures
        ({
            let p = zero_padded(number, NUMBER_WIDTH as nat);
            &&& p.len() >= 3
            &&& forall|i: int| 0 <= i < p.len() ==> #[trigger] is_digit(p[i])
            &&& digits_value(p) == number
            &&& p.len() > 3 ==> p[0] != '0'
        }),
        url_stem(url).len() > 0 ==> stored_name(number, url) == zero_padded(number, NUMBER_WIDTH as nat)
            + seq!['_'] + url_stem(url),
        url_stem(url).len() == 0 ==> stored_name(number, url) == zero_padded(number, NUMBER_WIDTH as nat)
            + seq!['.', 'j', 'p', 'g'],
        url_stem(url).len() > 0 ==> stored_name(number, url).len() == zero_padded(number, NUMBER_WIDTH as nat).len()
            + 1 + url_stem(url).len(),
{
    lemma_zero_padded(number, NUMBER_WIDTH as nat);
}

} // verus!
