//! Small executable string helpers with exact contracts over the
//! character-sequence view, used by the filename and path parsers.

use vstd::prelude::*;
use vstd::string::*;

verus! {

/// Index of the first occurrence of `c` in `s`, if any.
pub fn find_first(s: &str, c: char) -> (r: Option<usize>)
    ensures
        match r {
            Some(i) => {
                &&& i < s@.len()
                &&& s@[i as int] == c
                &&& forall|j: int| 0 <= j < i ==> s@[j] != c
                &&& s@.index_of_first(c) == Some(i as int)
            },
            None => {
                &&& !s@.contains(c)
                &&& s@.index_of_first(c) is None
            },
        },
{
    proof {
        s@.index_of_first_ensures(c);
    }
    let n = s.unicode_len();
    let mut i: usize = 0;
    while i < n
        invariant
            0 <= i <= n,
            n == s@.len(),
            forall|j: int| 0 <= j < i ==> s@[j] != c,
        decreases n - i,
    {
        if s.get_char(i) == c {
            proof {
                assert(s@.contains(c)) by {
                    assert(s@[i as int] == c);
                }
                s@.index_of_first_ensures(c);
            }
            return Some(i);
        }
        i += 1;
    }
    proof {
        assert(!s@.contains(c));
        s@.index_of_first_ensures(c);
    }
    None
}

/// Index of the last occurrence of `c` in `s`, if any.
pub fn find_last(s: &str, c: char) -> (r: Option<usize>)
    ensures
        match r {
            Some(i) => {
                &&& i < s@.len()
                &&& s@[i as int] == c
                &&& forall|j: int| i < j < s@.len() ==> s@[j] != c
                &&& s@.index_of_last(c) == Some(i as int)
            },
            None => {
                &&& !s@.contains(c)
                &&& s@.index_of_last(c) is None
            },
        },
{
    proof {
        s@.index_of_last_ensures(c);
    }
    let n = s.unicode_len();
    let mut i: usize = n;
    while i > 0
        invariant
            0 <= i <= n,
            n == s@.len(),
            forall|j: int| i <= j < n ==> s@[j] != c,
        decreases i,
    {
        i -= 1;
        if s.get_char(i) == c {
            proof {
                assert(s@.contains(c)) by {
                    assert(s@[i as int] == c);
                }
                s@.index_of_last_ensures(c);
            }
            return Some(i);
        }
    }
    proof {
        assert(!s@.contains(c));
        s@.index_of_last_ensures(c);
    }
    None
}

/// Relies on `String::push` from std: appends one character to the string.
#[verifier::external_body]
pub fn push_char(s: &mut String, c: char)
    ensures
        final(s)@ == old(s)@.push(c),
{
    s.push(c)
}

/// Character-wise string equality, phrased over the views.
pub fn str_eq(a: &str, b: &str) -> (r: bool)
    ensures
        r == (a@ == b@),
{
    let na = a.unicode_len();
    let nb = b.unicode_len();
    if na != nb {
        return false;
    }
    let mut i: usize = 0;
    while i < na
        invariant
            0 <= i <= na,
            na == a@.len(),
            na == b@.len(),
            forall|j: int| 0 <= j < i ==> a@[j] == b@[j],
        decreases na - i,
    {
        if a.get_char(i) != b.get_char(i) {
            return false;
        }
        i += 1;
    }
    proof {
        assert(a@ =~= b@);
    }
    true
}

/// Whether `v` holds a string whose view equals `s`'s.
pub fn string_list_contains(v: &Vec<String>, s: &str) -> (r: bool)
    ensures
        r == v.deep_view().contains(s@),
{
    let n = v.len();
    let mut i: usize = 0;
    while i < n
        invariant
            0 <= i <= n,
            n == v@.len(),
            forall|j: int| 0 <= j < i ==> v.deep_view()[j] != s@,
        decreases n - i,
    {
        if str_eq(v[i].as_str(), s) {
            proof {
                assert(v.deep_view()[i as int] == s@);
            }
            return true;
        }
        i += 1;
    }
    false
}

/// Whether the view of `a` begins with the view of `b`.
pub open spec fn starts_with(a: Seq<char>, b: Seq<char>) -> bool {
    a.len() >= b.len() && a.subrange(0, b.len() as int) == b
}

/// Whether `sub` occurs contiguously somewhere in `s`.
pub open spec fn has_substring(s: Seq<char>, sub: Seq<char>) -> bool {
    exists|i: int| 0 <= i <= s.len() - sub.len() && #[trigger] s.subrange(i, i + sub.len()) == sub
}

/// Whether `sub` occurs in `s` starting at position `i`.
fn matches_at(s: &str, sub: &str, i: usize) -> (r: bool)
    requires
        i + sub@.len() <= s@.len(),
    ensures
        r == (s@.subrange(i as int, i + sub@.len()) == sub@),
{
    let n = s.unicode_len();
    let m = sub.unicode_len();
    let mut j: usize = 0;
    while j < m
        invariant
            0 <= j <= m,
            m == sub@.len(),
            n == s@.len(),
            i + m <= n,
            forall|k: int| 0 <= k < j ==> s@[i + k] == sub@[k],
        decreases m - j,
    {
        if s.get_char(i + j) != sub.get_char(j) {
            proof {
                if s@.subrange(i as int, i + m) == sub@ {
                    assert(s@.subrange(i as int, i + m)[j as int] == s@[i + j]);
                }
            }
            return false;
        }
        j += 1;
    }
    proof {
        assert(s@.subrange(i as int, i + m) =~= sub@);
    }
    true
}

/// Executable substring search matching [`has_substring`] on the views.
pub fn str_contains(s: &str, sub: &str) -> (r: bool)
    ensures
        r == has_substring(s@, sub@),
{
    let n = s.unicode_len();
    let m = sub.unicode_len();
    if m > n {
        return false;
    }
    if m == 0 {
        proof {
            assert(has_substring(s@, sub@)) by {
                assert(s@.subrange(0, 0 + sub@.len() as int) =~= sub@);
            }
        }
        return true;
    }
    let mut i: usize = 0;
    while i <= n - m
        invariant
            0 <= i <= n - m + 1,
            1 <= m <= n,
            n == s@.len(),
            m == sub@.len(),
            forall|k: int| 0 <= k < i ==> #[trigger] s@.subrange(k, k + m) != sub@,
        decreases n - i,
    {
        if matches_at(s, sub, i) {
            proof {
                assert(has_substring(s@, sub@)) by {
                    assert(0 <= i as int <= s@.len() - sub@.len());
                    assert(s@.subrange(i as int, i as int + sub@.len() as int) == sub@);
                }
            }
            return true;
        }
        i += 1;
    }
    proof {
        assert(!has_substring(s@, sub@)) by {
            if has_substring(s@, sub@) {
                let w = choose|w: int|
                    0 <= w <= s@.len() - sub@.len() && #[trigger] s@.subrange(w, w + sub@.len())
                        == sub@;
                assert(s@.subrange(w, w + m as int) == sub@);
            }
        }
    }
    false
}

/// Executable prefix test matching [`starts_with`] on the views.
pub fn str_starts_with(a: &str, b: &str) -> (r: bool)
    ensures
        r == starts_with(a@, b@),
{
    let na = a.unicode_len();
    let nb = b.unicode_len();
    if na < nb {
        return false;
    }
    let mut i: usize = 0;
    while i < nb
        invariant
            0 <= i <= nb,
            nb <= na,
            na == a@.len(),
            nb == b@.len(),
            forall|j: int| 0 <= j < i ==> a@[j] == b@[j],
        decreases nb - i,
    {
        if a.get_char(i) != b.get_char(i) {
            assert(a@.subrange(0, b@.len() as int)[i as int] != b@[i as int]);
            return false;
        }
        i += 1;
    }
    proof {
        assert(a@.subrange(0, b@.len() as int) =~= b@);
    }
    true
}

/// Lexicographic order on character sequences, by code point — the order
/// strings sort in.
pub open spec fn seq_char_le(a: Seq<char>, b: Seq<char>) -> bool
    decreases a.len(),
{
    if a.len() == 0 {
        true
    } else if b.len() == 0 {
        false
    } else if (a[0] as u32) < (b[0] as u32) {
        true
    } else if (a[0] as u32) > (b[0] as u32) {
        false
    } else {
        seq_char_le(a.skip(1), b.skip(1))
    }
}

/// Executable lexicographic comparison matching [`seq_char_le`].
pub fn str_le(a: &str, b: &str) -> (r: bool)
    ensures
        r == seq_char_le(a@, b@),
{
    let na = a.unicode_len();
    let nb = b.unicode_len();
    let mut i: usize = 0;
    proof {
        assert(a@.skip(0) =~= a@);
        assert(b@.skip(0) =~= b@);
    }
    while i < na && i < nb
        invariant
            0 <= i <= na,
            0 <= i <= nb,
            na == a@.len(),
            nb == b@.len(),
            forall|j: int| 0 <= j < i ==> a@[j] == b@[j],
            seq_char_le(a@, b@) == seq_char_le(a@.skip(i as int), b@.skip(i as int)),
        decreases na - i,
    {
        let ca = a.get_char(i);
        let cb = b.get_char(i);
        proof {
            assert(a@.skip(i as int)[0] == a@[i as int]);
            assert(b@.skip(i as int)[0] == b@[i as int]);
            assert(a@.skip(i as int).skip(1) =~= a@.skip(i as int + 1));
            assert(b@.skip(i as int).skip(1) =~= b@.skip(i as int + 1));
        }
        if (ca as u32) < (cb as u32) {
            return true;
        }
        if (ca as u32) > (cb as u32) {
            return false;
        }
        proof {
            assert(ca == cb);
        }
        i += 1;
    }
    proof {
        if i == na {
            assert(a@.skip(i as int).len() == 0);
        } else {
            assert(b@.skip(i as int).len() == 0);
            assert(a@.skip(i as int).len() > 0);
        }
    }
    na <= nb
}

/// Insertion of `x` into an ascending sequence, before the first element it
/// does not exceed.
pub open spec fn insert_sorted(s: Seq<Seq<char>>, x: Seq<char>) -> Seq<Seq<char>>
    decreases s.len(),
{
    if s.len() == 0 {
        seq![x]
    } else if seq_char_le(x, s[0]) {
        seq![x] + s
    } else {
        seq![s[0]] + insert_sorted(s.skip(1), x)
    }
}

/// The ascending rearrangement insertion sort produces.
pub open spec fn sort_strings(s: Seq<Seq<char>>) -> Seq<Seq<char>>
    decreases s.len(),
{
    if s.len() == 0 {
        Seq::empty()
    } else {
        insert_sorted(sort_strings(s.drop_last()), s.last())
    }
}

/// Inserting at the first position whose element `x` does not exceed is what
/// [`insert_sorted`] denotes.
proof fn lemma_insert_sorted_at(s: Seq<Seq<char>>, x: Seq<char>, k: int)
    requires
        0 <= k <= s.len(),
        forall|j: int| 0 <= j < k ==> !seq_char_le(x, #[trigger] s[j]),
        k < s.len() ==> seq_char_le(x, s[k]),
    ensures
        insert_sorted(s, x) == s.take(k) + seq![x] + s.skip(k),
    decreases s.len(),
{
    if s.len() == 0 {
        assert(insert_sorted(s, x) =~= s.take(k) + seq![x] + s.skip(k));
    } else if seq_char_le(x, s[0]) {
        assert(k == 0);
        assert(insert_sorted(s, x) =~= s.take(0) + seq![x] + s.skip(0));
    } else {
        assert(k >= 1);
        assert(forall|j: int| 0 <= j < k - 1 ==> !seq_char_le(x, #[trigger] s.skip(1)[j]));
        assert(k - 1 < s.skip(1).len() ==> seq_char_le(x, s.skip(1)[k - 1]));
        lemma_insert_sorted_at(s.skip(1), x, k - 1);
        assert(insert_sorted(s, x) =~= s.take(k) + seq![x] + s.skip(k)) by {
            assert(s.skip(1).take(k - 1) =~= s.take(k).skip(1));
            assert(s.skip(1).skip(k - 1) =~= s.skip(k));
        }
    }
}

/// Sorts the strings ascending by [`seq_char_le`].
pub fn sort_string_list(v: &Vec<String>) -> (r: Vec<String>)
    ensures
        r.deep_view() == sort_strings(v.deep_view()),
{
    let mut r: Vec<String> = Vec::new();
    let n = v.len();
    let mut i: usize = 0;
    proof {
        assert(v.deep_view().take(0) =~= Seq::<Seq<char>>::empty());
    }
    while i < n
        invariant
            0 <= i <= n,
            n == v@.len(),
            r.deep_view() == sort_strings(v.deep_view().take(i as int)),
        decreases n - i,
    {
        let ghost r_old = r.deep_view();
        let x = v[i].clone();
        let ghost xv = x@;
        let m = r.len();
        let mut k: usize = 0;
        while k < m && !str_le(x.as_str(), r[k].as_str())
            invariant
                0 <= k <= m,
                m == r@.len(),
                r.deep_view() == r_old,
                xv == x@,
                forall|j: int| 0 <= j < k ==> !seq_char_le(xv, #[trigger] r_old[j]),
            decreases m - k,
        {
            k += 1;
        }
        proof {
            lemma_insert_sorted_at(r_old, xv, k as int);
        }
        r.insert(k, x);
        proof {
            assert(r.deep_view() =~= r_old.take(k as int) + seq![xv] + r_old.skip(k as int));
            assert(v.deep_view().take(i as int + 1).drop_last() =~= v.deep_view().take(i as int));
            assert(v.deep_view().take(i as int + 1).last() == v.deep_view()[i as int]);
        }
        i += 1;
    }
    proof {
        assert(v.deep_view().take(n as int) =~= v.deep_view());
    }
    r
}

/// The sequence with runs of equal adjacent elements collapsed to one.
pub open spec fn dedup_adjacent(s: Seq<Seq<char>>) -> Seq<Seq<char>>
    decreases s.len(),
{
    if s.len() == 0 {
        Seq::empty()
    } else if s.len() == 1 {
        s
    } else if s.last() == s[s.len() - 2] {
        dedup_adjacent(s.drop_last())
    } else {
        dedup_adjacent(s.drop_last()).push(s.last())
    }
}

/// Collapses runs of equal adjacent strings, as deduplication of a sorted
/// list does.
pub fn dedup_string_list(v: &Vec<String>) -> (r: Vec<String>)
    ensures
        r.deep_view() == dedup_adjacent(v.deep_view()),
{
    let mut r: Vec<String> = Vec::new();
    let n = v.len();
    let mut i: usize = 0;
    proof {
        assert(v.deep_view().take(0) =~= Seq::<Seq<char>>::empty());
        assert(dedup_adjacent(v.deep_view().take(0)) =~= Seq::<Seq<char>>::empty());
    }
    while i < n
        invariant
            0 <= i <= n,
            n == v@.len(),
            r.deep_view() == dedup_adjacent(v.deep_view().take(i as int)),
        decreases n - i,
    {
        let ghost r_old = r.deep_view();
        proof {
            assert(v.deep_view().take(i as int + 1).drop_last() =~= v.deep_view().take(i as int));
            assert(v.deep_view().take(i as int + 1).last() == v.deep_view()[i as int]);
        }
        if i == 0 {
            r.push(v[i].clone());
            proof {
                assert(r.deep_view() =~= r_old.push(v.deep_view()[i as int]));
                assert(dedup_adjacent(v.deep_view().take(1)) =~= v.deep_view().take(1));
                assert(r.deep_view() =~= v.deep_view().take(1));
            }
        } else if str_eq(v[i].as_str(), v[i - 1].as_str()) {
            proof {
                assert(v.deep_view().take(i as int + 1)[i - 1] == v.deep_view()[i - 1]);
            }
        } else {
            r.push(v[i].clone());
            proof {
                assert(v.deep_view().take(i as int + 1)[i - 1] == v.deep_view()[i - 1]);
                assert(r.deep_view() =~= r_old.push(v.deep_view()[i as int]));
            }
        }
        i += 1;
    }
    proof {
        assert(v.deep_view().take(n as int) =~= v.deep_view());
    }
    r
}

/// The strings joined with `sep` between consecutive elements.
pub open spec fn join_with(s: Seq<Seq<char>>, sep: Seq<char>) -> Seq<char>
    decreases s.len(),
{
    if s.len() == 0 {
        Seq::empty()
    } else if s.len() == 1 {
        s[0]
    } else {
        join_with(s.drop_last(), sep) + sep + s.last()
    }
}

/// Joins the strings with `sep` between consecutive elements.
pub fn join_string_list(v: &Vec<String>, sep: &str) -> (r: String)
    ensures
        r@ == join_with(v.deep_view(), sep@),
{
    let mut r = String::new();
    let n = v.len();
    let mut i: usize = 0;
    proof {
        assert(r@ =~= join_with(v.deep_view().take(0), sep@));
    }
    while i < n
        invariant
            0 <= i <= n,
            n == v@.len(),
            r@ == join_with(v.deep_view().take(i as int), sep@),
        decreases n - i,
    {
        proof {
            assert(v.deep_view().take(i as int + 1).drop_last() =~= v.deep_view().take(i as int));
            assert(v.deep_view().take(i as int + 1).last() == v.deep_view()[i as int]);
        }
        if i > 0 {
            r.append(sep);
        }
        r.append(v[i].as_str());
        proof {
            if i == 0 {
                assert(r@ =~= join_with(v.deep_view().take(1), sep@));
            }
        }
        i += 1;
    }
    proof {
        assert(v.deep_view().take(n as int) =~= v.deep_view());
    }
    r
}

/// The whitespace characters recognized when lines are trimmed and split:
/// the ASCII whitespace forms that build tools print.
pub open spec fn is_space(c: char) -> bool {
    c == ' ' || c == '\t' || c == '\n' || c == '\u{b}' || c == '\u{c}' || c == '\r'
}

/// Executable form of [`is_space`].
pub fn space_char(c: char) -> (r: bool)
    ensures
        r == is_space(c),
{
    c == ' ' || c == '\t' || c == '\n' || c == '\u{b}' || c == '\u{c}' || c == '\r'
}

/// The length of the leading whitespace run.
pub open spec fn leading_spaces(s: Seq<char>) -> int
    decreases s.len(),
{
    if s.len() == 0 {
        0
    } else if is_space(s[0]) {
        1 + leading_spaces(s.skip(1))
    } else {
        0
    }
}

/// The length of the leading run without whitespace.
pub open spec fn leading_word(s: Seq<char>) -> int
    decreases s.len(),
{
    if s.len() == 0 {
        0
    } else if !is_space(s[0]) {
        1 + leading_word(s.skip(1))
    } else {
        0
    }
}


/// The whitespace-separated words of `s`, in order, none empty.
pub open spec fn words_of(s: Seq<char>) -> Seq<Seq<char>>
    decreases s.len(),
{
    if s.len() == 0 {
        Seq::empty()
    } else if is_space(s[0]) {
        words_of(s.skip(1))
    } else {
        let k = leading_word(s);
        if 1 <= k <= s.len() {
            seq![s.take(k)] + words_of(s.skip(k))
        } else {
            Seq::empty()
        }
    }
}

/// Splits `s` into its whitespace-separated words.
pub fn split_words(s: &str) -> (r: Vec<String>)
    ensures
        r.deep_view() == words_of(s@),
{
    let n = s.unicode_len();
    let mut r: Vec<String> = Vec::new();
    let mut i: usize = 0;
    proof {
        assert(s@.skip(0) =~= s@);
    }
    while i < n
        invariant
            0 <= i <= n,
            n == s@.len(),
            r.deep_view() + words_of(s@.skip(i as int)) =~= words_of(s@),
        decreases n - i,
    {
        let ghost r_old = r.deep_view();
        let c = s.get_char(i);
        if space_char(c) {
            proof {
                assert(s@.skip(i as int)[0] == s@[i as int]);
                assert(s@.skip(i as int).skip(1) =~= s@.skip(i as int + 1));
                assert(r.deep_view() + words_of(s@.skip(i as int + 1)) =~= words_of(s@));
            }
            i += 1;
        } else {
            let start = i;
            let mut j = i + 1;
            while j < n
                invariant
                    start < j <= n,
                    n == s@.len(),
                    forall|k: int| start <= k < j ==> !is_space(#[trigger] s@[k]),
                ensures
                    start < j <= n,
                    forall|k: int| start <= k < j ==> !is_space(#[trigger] s@[k]),
                    j == n || is_space(s@[j as int]),
                decreases n - j,
            {
                if space_char(s.get_char(j)) {
                    break ;
                }
                j += 1;
            }
            proof {
                let tail = s@.skip(start as int);
                assert(forall|k: int| 0 <= k < j - start ==> !is_space(#[trigger] tail[k]));
                assert(j - start < tail.len() ==> is_space(tail[j - start]));
                lemma_leading_word_run(tail, j - start);
            }
            let word = s.substring_char(start, j);
            r.push(word.to_owned());
            proof {
                let tail = s@.skip(start as int);
                assert(tail.take(j - start) =~= s@.subrange(start as int, j as int));
                assert(tail.skip(j - start) =~= s@.skip(j as int));
                assert(words_of(tail) =~= seq![s@.subrange(start as int, j as int)] + words_of(
                    s@.skip(j as int),
                ));
                assert(r.deep_view() =~= r_old.push(s@.subrange(start as int, j as int)));
                assert(r.deep_view() + words_of(s@.skip(j as int)) =~= words_of(s@));
            }
            i = j;
        }
    }
    proof {
        assert(s@.skip(n as int) =~= Seq::<char>::empty());
        assert(words_of(Seq::<char>::empty()) =~= Seq::<Seq<char>>::empty());
        assert(r.deep_view() =~= words_of(s@));
    }
    r
}

/// A run of `k` non-space characters followed by a space or the end is the
/// leading word.
proof fn lemma_leading_word_run(s: Seq<char>, k: int)
    requires
        0 <= k <= s.len(),
        forall|j: int| 0 <= j < k ==> !is_space(#[trigger] s[j]),
        k < s.len() ==> is_space(s[k]),
    ensures
        leading_word(s) == k,
    decreases k,
{
    if k == 0 {
    } else {
        assert(forall|j: int| 0 <= j < k - 1 ==> !is_space(#[trigger] s.skip(1)[j]));
        assert(k - 1 < s.skip(1).len() ==> is_space(s.skip(1)[k - 1]));
        lemma_leading_word_run(s.skip(1), k - 1);
    }
}

/// The length of the trailing whitespace run.
pub open spec fn trailing_spaces(s: Seq<char>) -> int
    decreases s.len(),
{
    if s.len() == 0 {
        0
    } else if is_space(s.last()) {
        1 + trailing_spaces(s.drop_last())
    } else {
        0
    }
}


/// `s` with leading and trailing whitespace dropped.
pub open spec fn trim_of(s: Seq<char>) -> Seq<char> {
    let a = leading_spaces(s);
    let core = s.skip(a);
    core.take(core.len() - trailing_spaces(core))
}

/// Drops leading and trailing whitespace.
pub fn trim(s: &str) -> (r: &str)
    ensures
        r@ == trim_of(s@),
{
    let n = s.unicode_len();
    let mut a: usize = 0;
    while a < n && space_char(s.get_char(a))
        invariant
            0 <= a <= n,
            n == s@.len(),
            forall|k: int| 0 <= k < a ==> is_space(#[trigger] s@[k]),
        ensures
            0 <= a <= n,
            forall|k: int| 0 <= k < a ==> is_space(#[trigger] s@[k]),
            a == n || !is_space(s@[a as int]),
        decreases n - a,
    {
        a += 1;
    }
    let mut b: usize = n;
    while b > a && space_char(s.get_char(b - 1))
        invariant
            a <= b <= n,
            a <= n,
            n == s@.len(),
            forall|k: int| b <= k < n ==> is_space(#[trigger] s@[k]),
        ensures
            a <= b <= n,
            forall|k: int| b <= k < n ==> is_space(#[trigger] s@[k]),
            b == a || !is_space(s@[b - 1]),
        decreases b,
    {
        b -= 1;
    }
    proof {
        lemma_leading_spaces_run(s@, a as int);
        let core = s@.skip(a as int);
        let t = core.len() - (b - a);
        assert(forall|k: int| core.len() - t <= k < core.len() ==> is_space(#[trigger] core[k]));
        assert(t < core.len() ==> !is_space(core[core.len() - t - 1]));
        lemma_trailing_spaces_run(core, t);
        assert(s@.subrange(a as int, b as int) =~= core.take(b - a));
    }
    s.substring_char(a, b)
}

/// A run of `k` leading space characters followed by a non-space or the end
/// is the leading whitespace.
proof fn lemma_leading_spaces_run(s: Seq<char>, k: int)
    requires
        0 <= k <= s.len(),
        forall|j: int| 0 <= j < k ==> is_space(#[trigger] s[j]),
        k < s.len() ==> !is_space(s[k]),
    ensures
        leading_spaces(s) == k,
    decreases k,
{
    if k == 0 {
    } else {
        assert(forall|j: int| 0 <= j < k - 1 ==> is_space(#[trigger] s.skip(1)[j]));
        assert(k - 1 < s.skip(1).len() ==> !is_space(s.skip(1)[k - 1]));
        lemma_leading_spaces_run(s.skip(1), k - 1);
    }
}

/// A trailing run of `t` space characters preceded by a non-space or the
/// start is the trailing whitespace.
proof fn lemma_trailing_spaces_run(s: Seq<char>, t: int)
    requires
        0 <= t <= s.len(),
        forall|j: int| s.len() - t <= j < s.len() ==> is_space(#[trigger] s[j]),
        t < s.len() ==> !is_space(s[s.len() - t - 1]),
    ensures
        trailing_spaces(s) == t,
    decreases t,
{
    if t == 0 {
    } else {
        assert(forall|j: int|
            s.drop_last().len() - (t - 1) <= j < s.drop_last().len() ==> is_space(
                #[trigger] s.drop_last()[j],
            ));
        assert(t - 1 < s.drop_last().len() ==> !is_space(
            s.drop_last()[s.drop_last().len() - (t - 1) - 1],
        ));
        lemma_trailing_spaces_run(s.drop_last(), t - 1);
    }
}

} // verus!
