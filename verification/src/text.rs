//! Strings seen as sequences of characters.

use vstd::prelude::*;
use vstd::string::*;

verus! {

/// The characters with the Unicode `White_Space` property.
pub open spec fn is_white_space(c: char) -> bool {
    let u = c as u32;
    ||| 0x9 <= u <= 0xd
    ||| u == 0x20
    ||| u == 0x85
    ||| u == 0xa0
    ||| u == 0x1680
    ||| 0x2000 <= u <= 0x200a
    ||| u == 0x2028
    ||| u == 0x2029
    ||| u == 0x202f
    ||| u == 0x205f
    ||| u == 0x3000
}

/// Whether `s` has no character but white space.
pub open spec fn is_blank(s: Seq<char>) -> bool {
    forall|i: int| 0 <= i < s.len() ==> is_white_space(#[trigger] s[i])
}

/// `s` without its leading white space.
pub open spec fn trimmed_start(s: Seq<char>) -> Seq<char>
    decreases s.len(),
{
    if s.len() > 0 && is_white_space(s[0]) {
        trimmed_start(s.skip(1))
    } else {
        s
    }
}

/// `s` without its trailing white space.
pub open spec fn trimmed_end(s: Seq<char>) -> Seq<char>
    decreases s.len(),
{
    if s.len() > 0 && is_white_space(s.last()) {
        trimmed_end(s.drop_last())
    } else {
        s
    }
}

/// `s` without its leading and its trailing white space.
pub open spec fn trimmed(s: Seq<char>) -> Seq<char> {
    trimmed_end(trimmed_start(s))
}

/// `str::trim` of the standard library: the text without the white space at
/// its two ends, white space being the Unicode property of that name.
pub assume_specification[ str::trim ](s: &str) -> (res: &str)
    ensures
        res@ == trimmed(s@),
;

/// `String::push` of the standard library: one character more at the end.
pub assume_specification[ String::push ](s: &mut String, ch: char)
    ensures
        final(s)@ == old(s)@.push(ch),
;

proof fn lemma_trimmed_start_blank(s: Seq<char>)
    ensures
        trimmed_start(s).len() == 0 <==> is_blank(s),
        trimmed_start(s).len() > 0 ==> !is_white_space(trimmed_start(s)[0]),
    decreases s.len(),
{
    if s.len() > 0 && is_white_space(s[0]) {
        lemma_trimmed_start_blank(s.skip(1));
        if is_blank(s.skip(1)) {
            assert forall|i: int| 0 <= i < s.len() implies is_white_space(#[trigger] s[i]) by {
                if i > 0 {
                    assert(s[i] == s.skip(1)[i - 1]);
                }
            }
        }
        if is_blank(s) {
            assert forall|i: int| 0 <= i < s.skip(1).len() implies is_white_space(
                #[trigger] s.skip(1)[i],
            ) by {
                assert(s.skip(1)[i] == s[i + 1]);
            }
        }
    }
}

proof fn lemma_trimmed_end_keeps(s: Seq<char>)
    requires
        s.len() > 0,
        !is_white_space(s[0]),
    ensures
        trimmed_end(s).len() > 0,
    decreases s.len(),
{
    if is_white_space(s.last()) {
        assert(s.len() > 1);
        lemma_trimmed_end_keeps(s.drop_last());
    }
}

/// Nothing is left of a text after trimming exactly when it is blank.
pub proof fn lemma_trimmed_empty(s: Seq<char>)
    ensures
        trimmed(s).len() == 0 <==> is_blank(s),
{
    lemma_trimmed_start_blank(s);
    if trimmed_start(s).len() > 0 {
        lemma_trimmed_end_keeps(trimmed_start(s));
    }
}

proof fn lemma_trimmed_end_start(s: Seq<char>)
    ensures
        trimmed_end(s).len() > 0 ==> trimmed_end(s)[0] == s[0] && s.len() > 0
            && !is_white_space(trimmed_end(s).last()),
    decreases s.len(),
{
    if s.len() > 0 && is_white_space(s.last()) {
        lemma_trimmed_end_start(s.drop_last());
    }
}

/// A trimmed text has nothing left to trim.
pub proof fn lemma_trimmed_twice(s: Seq<char>)
    ensures
        trimmed(trimmed(s)) == trimmed(s),
{
    lemma_trimmed_start_blank(s);
    lemma_trimmed_end_start(trimmed_start(s));
}

/// Whether `s` has no character but white space.
pub fn blank(s: &str) -> (res: bool)
    ensures
        res == is_blank(s@),
{
    proof {
        lemma_trimmed_empty(s@);
    }
    s.trim().is_empty()
}

/// Whether two strings hold the same characters.
pub fn same(a: &str, b: &str) -> (res: bool)
    ensures
        res == (a@ == b@),
{
    a.to_owned() == b.to_owned()
}

/// The two strings, one after the other.
pub fn joined(a: &str, b: &str) -> (res: String)
    ensures
        res@ == a@ + b@,
{
    let mut res = a.to_owned();
    res.append(b);
    res
}

/// How many characters two sequences share at their start.
pub open spec fn common_prefix_len(a: Seq<char>, b: Seq<char>) -> nat
    decreases a.len(),
{
    if a.len() > 0 && b.len() > 0 && a[0] == b[0] {
        1 + common_prefix_len(a.skip(1), b.skip(1))
    } else {
        0
    }
}

/// The common prefix is a prefix of both, and the characters after it differ
/// unless one of the two ends there.
pub proof fn law_common_prefix(a: Seq<char>, b: Seq<char>)
    ensures
        common_prefix_len(a, b) <= a.len(),
        common_prefix_len(a, b) <= b.len(),
        a.take(common_prefix_len(a, b) as int) == b.take(common_prefix_len(a, b) as int),
        common_prefix_len(a, b) < a.len() && common_prefix_len(a, b) < b.len()
            ==> a[common_prefix_len(a, b) as int] != b[common_prefix_len(a, b) as int],
    decreases a.len(),
{
    if a.len() > 0 && b.len() > 0 && a[0] == b[0] {
        law_common_prefix(a.skip(1), b.skip(1));
        let n = common_prefix_len(a.skip(1), b.skip(1));
        assert forall|i: int| 0 <= i < n + 1 implies a[i] == b[i] by {
            if i > 0 {
                assert(a.skip(1).take(n as int)[i - 1] == b.skip(1).take(n as int)[i - 1]);
            }
        }
        assert(a.take(n as int + 1) =~= b.take(n as int + 1));
    }
}

/// A length at which two sequences agree and stop agreeing is the length of
/// their common prefix.
pub proof fn lemma_common_prefix_unique(a: Seq<char>, b: Seq<char>, n: nat)
    requires
        n <= a.len(),
        n <= b.len(),
        a.take(n as int) == b.take(n as int),
        n < a.len() && n < b.len() ==> a[n as int] != b[n as int],
    ensures
        common_prefix_len(a, b) == n,
{
    law_common_prefix(a, b);
    let m = common_prefix_len(a, b);
    if m < n {
        assert(a.take(n as int)[m as int] == a[m as int]);
        assert(b.take(n as int)[m as int] == b[m as int]);
    } else if n < m {
        assert(a.take(m as int)[n as int] == a[n as int]);
        assert(b.take(m as int)[n as int] == b[n as int]);
    }
}

/// The characters of `s`, in order.
pub fn chars_of(s: &str) -> (res: Vec<char>)
    ensures
        res@ == s@,
{
    let mut res: Vec<char> = Vec::new();
    for c in it: s.chars()
        invariant
            it.seq() == s@,
            res@ == s@.take(it.index() as int),
    {
        res.push(c);
    }
    res
}

/// Counts the Unicode scalars that `a` and `b` share as a prefix.
pub fn common_prefix_char_count(a: &str, b: &str) -> (res: usize)
    ensures
        res == common_prefix_len(a@, b@),
{
    let left: Vec<char> = chars_of(a);
    let right: Vec<char> = chars_of(b);
    let mut count: usize = 0;
    while count < left.len() && count < right.len() && left[count] == right[count]
        invariant
            left@ == a@,
            right@ == b@,
            count <= left.len(),
            count <= right.len(),
            a@.take(count as int) == b@.take(count as int),
        decreases left.len() - count,
    {
        proof {
            assert(a@.take(count + 1) =~= a@.take(count as int).push(a@[count as int]));
            assert(b@.take(count + 1) =~= b@.take(count as int).push(b@[count as int]));
        }
        count = count + 1;
    }
    proof {
        lemma_common_prefix_unique(a@, b@, count as nat);
    }
    count
}

/// Trimming takes white space from the two ends and nothing else: what is left
/// is one part of the text, with white space only before and after it, and it
/// neither starts nor ends with white space.
pub proof fn law_trimmed(s: Seq<char>)
    ensures
        exists|lo: int, hi: int|
            #![trigger s.subrange(lo, hi)]
            {
                &&& 0 <= lo <= hi <= s.len()
                &&& trimmed(s) == s.subrange(lo, hi)
                &&& forall|i: int| 0 <= i < lo ==> is_white_space(#[trigger] s[i])
                &&& forall|i: int| hi <= i < s.len() ==> is_white_space(#[trigger] s[i])
            },
        trimmed(s).len() > 0 ==> !is_white_space(trimmed(s)[0]) && !is_white_space(
            trimmed(s).last(),
        ),
{
    lemma_trimmed_start_part(s);
    let lo = s.len() - trimmed_start(s).len();
    lemma_trimmed_end_part(trimmed_start(s));
    let hi = lo + trimmed(s).len();
    assert(trimmed(s) =~= s.subrange(lo, hi));
    assert forall|i: int| hi <= i < s.len() implies is_white_space(#[trigger] s[i]) by {
        assert(s[i] == trimmed_start(s)[i - lo]);
    }
    lemma_trimmed_start_blank(s);
    lemma_trimmed_end_start(trimmed_start(s));
}

proof fn lemma_trimmed_start_part(s: Seq<char>)
    ensures
        trimmed_start(s).len() <= s.len(),
        trimmed_start(s) == s.skip(s.len() - trimmed_start(s).len()),
        forall|i: int|
            0 <= i < s.len() - trimmed_start(s).len() ==> is_white_space(#[trigger] s[i]),
    decreases s.len(),
{
    if s.len() > 0 && is_white_space(s[0]) {
        let rest = s.skip(1);
        lemma_trimmed_start_part(rest);
        let n = s.len() - trimmed_start(s).len();
        assert(rest.skip(n - 1) =~= s.skip(n));
        assert forall|i: int| 0 <= i < n implies is_white_space(#[trigger] s[i]) by {
            if i > 0 {
                assert(s[i] == rest[i - 1]);
            }
        }
    } else {
        assert(s.skip(0) =~= s);
    }
}

proof fn lemma_trimmed_end_part(s: Seq<char>)
    ensures
        trimmed_end(s).len() <= s.len(),
        trimmed_end(s) == s.take(trimmed_end(s).len() as int),
        forall|i: int| trimmed_end(s).len() <= i < s.len() ==> is_white_space(#[trigger] s[i]),
    decreases s.len(),
{
    if s.len() > 0 && is_white_space(s.last()) {
        let rest = s.drop_last();
        lemma_trimmed_end_part(rest);
        let n = trimmed_end(s).len() as int;
        assert(rest.take(n) =~= s.take(n));
        assert forall|i: int| n <= i < s.len() implies is_white_space(#[trigger] s[i]) by {
            if i < rest.len() {
                assert(s[i] == rest[i]);
            }
        }
    } else {
        assert(s.take(s.len() as int) =~= s);
    }
}

/// A text that neither starts nor ends with white space stays as it is when it
/// is trimmed, and a blank one vanishes.
pub proof fn law_nothing_to_trim(s: Seq<char>)
    ensures
        s.len() > 0 && !is_white_space(s[0]) && !is_white_space(s.last()) ==> trimmed(s) == s,
        (forall|i: int| 0 <= i < s.len() ==> is_white_space(#[trigger] s[i])) <==> trimmed(
            s,
        ).len() == 0,
        is_blank(s) <==> trimmed(s).len() == 0,
{
    lemma_trimmed_empty(s);
}

} // verus!
