//! Text as sequences of characters: lines, whitespace-separated tokens,
//! prefixes and infixes.

use vstd::prelude::*;

verus! {

/// Whether `c` is white space: a character with the Unicode property `White_Space`.
pub open spec fn is_space(c: char) -> bool {
    let u = c as u32;
    ||| 0x09 <= u <= 0x0D
    ||| u == 0x20
    ||| u == 0x85
    ||| u == 0xA0
    ||| u == 0x1680
    ||| 0x2000 <= u <= 0x200A
    ||| u == 0x2028
    ||| u == 0x2029
    ||| u == 0x202F
    ||| u == 0x205F
    ||| u == 0x3000
}

/// Whether every character of `s` is white space.
pub open spec fn is_blank(s: Seq<char>) -> bool {
    forall|i: int| 0 <= i < s.len() ==> is_space(#[trigger] s[i])
}

/// Whether `s` begins with `p`.
pub open spec fn has_prefix(s: Seq<char>, p: Seq<char>) -> bool {
    p.len() <= s.len() && s.subrange(0, p.len() as int) == p
}

/// Whether `p` stands in `s` at index `k`.
pub open spec fn occurs_at(s: Seq<char>, p: Seq<char>, k: int) -> bool {
    0 <= k && k + p.len() <= s.len() && s.subrange(k, k + p.len()) == p
}

/// Whether `p` stands somewhere in `s`.
pub open spec fn has_infix(s: Seq<char>, p: Seq<char>) -> bool {
    exists|k: int| occurs_at(s, p, k)
}

/// Where the line that a line feed at `nl` closes ends: before the carriage
/// return that stands directly in front of the line feed, if there is one.
pub open spec fn line_end(s: Seq<char>, start: int, nl: int) -> int {
    if start < nl && s[nl - 1] == '\r' {
        nl - 1
    } else {
        nl
    }
}

/// The lines of `s` from index `i` on, where the line being read began at `start`.
pub open spec fn lines_from(s: Seq<char>, i: int, start: int) -> Seq<Seq<char>>
    decreases s.len() - i,
{
    if i >= s.len() {
        if start < s.len() {
            seq![s.subrange(start, s.len() as int)]
        } else {
            Seq::empty()
        }
    } else if s[i] == '\n' {
        seq![s.subrange(start, line_end(s, start, i))] + lines_from(s, i + 1, i + 1)
    } else {
        lines_from(s, i + 1, start)
    }
}

/// The lines of `s`. A line ends at a line feed, or at a carriage return
/// directly followed by one; neither belongs to the line. What follows the
/// last line feed is a line if it is not empty.
pub open spec fn lines_of(s: Seq<char>) -> Seq<Seq<char>> {
    lines_from(s, 0, 0)
}

/// The tokens of `s` from index `i` on, where `open_at` is the start of the
/// token being read, if one is.
pub open spec fn tokens_from(s: Seq<char>, i: int, open_at: Option<int>) -> Seq<Seq<char>>
    decreases s.len() - i,
{
    if i >= s.len() {
        match open_at {
            Some(b) => seq![s.subrange(b, s.len() as int)],
            None => Seq::empty(),
        }
    } else if is_space(s[i]) {
        match open_at {
            Some(b) => seq![s.subrange(b, i)] + tokens_from(s, i + 1, None),
            None => tokens_from(s, i + 1, None),
        }
    } else {
        tokens_from(
            s,
            i + 1,
            if open_at is None {
                Some(i)
            } else {
                open_at
            },
        )
    }
}

/// The tokens of `s`: its maximal runs of characters that are not white space.
pub open spec fn tokens_of(s: Seq<char>) -> Seq<Seq<char>> {
    tokens_from(s, 0, None)
}

/// The contents of a vector of character vectors.
pub open spec fn seqs_of(v: Seq<Vec<char>>) -> Seq<Seq<char>> {
    v.map_values(|l: Vec<char>| l@)
}

/// Whether `t` is not empty and holds no white space.
pub open spec fn is_word(t: Seq<char>) -> bool {
    t.len() > 0 && forall|j: int| 0 <= j < t.len() ==> !is_space(#[trigger] t[j])
}

/// Every token read from a state in which the open token, if any, holds no
/// white space so far, is a word.
pub proof fn lemma_tokens_from_are_words(s: Seq<char>, i: int, open_at: Option<int>)
    requires
        0 <= i <= s.len(),
        open_at matches Some(b) ==> 0 <= b < i && forall|j: int|
            b <= j < i ==> !is_space(#[trigger] s[j]),
    ensures
        forall|k: int|
            0 <= k < tokens_from(s, i, open_at).len() ==> is_word(
                #[trigger] tokens_from(s, i, open_at)[k],
            ),
    decreases s.len() - i,
{
    let all = tokens_from(s, i, open_at);
    if i >= s.len() {
        if let Some(b) = open_at {
            let t = s.subrange(b, s.len() as int);
            assert forall|j: int| 0 <= j < t.len() implies !is_space(#[trigger] t[j]) by {
                assert(t[j] == s[b + j]);
            }
            assert(is_word(t));
            assert(all =~= seq![t]);
        } else {
            assert(all.len() == 0);
        }
    } else if is_space(s[i]) {
        lemma_tokens_from_are_words(s, i + 1, None);
        let rest = tokens_from(s, i + 1, None);
        if let Some(b) = open_at {
            let t = s.subrange(b, i);
            assert forall|j: int| 0 <= j < t.len() implies !is_space(#[trigger] t[j]) by {
                assert(t[j] == s[b + j]);
            }
            assert(is_word(t));
            assert(all == seq![t] + rest);
            assert forall|k: int| 0 <= k < all.len() implies is_word(#[trigger] all[k]) by {
                if k > 0 {
                    assert(all[k] == rest[k - 1]);
                }
            }
        } else {
            assert(all == rest);
        }
    } else {
        assert(all == tokens_from(s, i + 1, if open_at is None { Some(i) } else { open_at }));
        lemma_tokens_from_are_words(
            s,
            i + 1,
            if open_at is None {
                Some(i)
            } else {
                open_at
            },
        );
    }
}

/// No token is empty, and none holds white space.
pub proof fn lemma_tokens_are_words(s: Seq<char>)
    ensures
        forall|k: int| 0 <= k < tokens_of(s).len() ==> is_word(#[trigger] tokens_of(s)[k]),
{
    lemma_tokens_from_are_words(s, 0, None);
}

/// Whether `c` is white space.
pub fn is_whitespace(c: char) -> (r: bool)
    ensures
        r == is_space(c),
{
    let u: u32 = c as u32;
    (0x09 <= u && u <= 0x0D) || u == 0x20 || u == 0x85 || u == 0xA0 || u == 0x1680 || (0x2000 <= u
        && u <= 0x200A) || u == 0x2028 || u == 0x2029 || u == 0x202F || u == 0x205F || u == 0x3000
}

/// The characters of `s`, in order.
pub fn chars_of(s: &str) -> (v: Vec<char>)
    ensures
        v@ == s@,
{
    let mut v: Vec<char> = Vec::new();
    for c in it: s.chars()
        invariant
            it.seq() == s@,
            v@ == s@.take(it.index() as int),
    {
        v.push(c);
    }
    v
}

/// `String::push` of std: the character is appended to the string.
pub assume_specification[ String::push ](s: &mut String, c: char)
    ensures
        final(s)@ == old(s)@.push(c),
;

/// The string made of the characters of `v`.
pub fn string_of(v: &Vec<char>) -> (s: String)
    ensures
        s@ == v@,
{
    let mut s = String::new();
    let mut i: usize = 0;
    while i < v.len()
        invariant
            i <= v.len(),
            s@ == v@.take(i as int),
        decreases v.len() - i,
    {
        s.push(v[i]);
        i += 1;
    }
    s
}

/// A copy of `v[from..to]`.
pub fn copy_range(v: &Vec<char>, from: usize, to: usize) -> (r: Vec<char>)
    requires
        from <= to <= v.len(),
    ensures
        r@ == v@.subrange(from as int, to as int),
{
    let mut r: Vec<char> = Vec::new();
    let mut i: usize = from;
    while i < to
        invariant
            from <= i <= to <= v.len(),
            r@ == v@.subrange(from as int, i as int),
        decreases to - i,
    {
        r.push(v[i]);
        i += 1;
    }
    r
}

/// Whether every character of `line` is white space.
pub fn blank(line: &Vec<char>) -> (r: bool)
    ensures
        r == is_blank(line@),
{
    let mut i: usize = 0;
    while i < line.len()
        invariant
            i <= line.len(),
            forall|j: int| 0 <= j < i ==> is_space(#[trigger] line@[j]),
        decreases line.len() - i,
    {
        if !is_whitespace(line[i]) {
            return false;
        }
        i += 1;
    }
    true
}

/// Whether `p` stands in `s` at index `k`.
pub fn matches_at(s: &Vec<char>, p: &Vec<char>, k: usize) -> (r: bool)
    ensures
        r == occurs_at(s@, p@, k as int),
{
    if p.len() > s.len() || k > s.len() - p.len() {
        return false;
    }
    let mut i: usize = 0;
    while i < p.len()
        invariant
            i <= p.len(),
            k + p.len() <= s.len(),
            forall|j: int| 0 <= j < i ==> s@[k + j] == p@[j],
        decreases p.len() - i,
    {
        if s[k + i] != p[i] {
            assert(s@.subrange(k as int, k + p.len())[i as int] == s@[k + i]);
            return false;
        }
        i += 1;
    }
    assert(s@.subrange(k as int, k + p.len()) =~= p@);
    true
}

/// Whether `line` begins with `prefix`.
pub fn starts_with(line: &Vec<char>, prefix: &str) -> (r: bool)
    ensures
        r == has_prefix(line@, prefix@),
{
    let p = chars_of(prefix);
    matches_at(line, &p, 0)
}

/// Whether `needle` stands somewhere in `line`.
pub fn contains(line: &Vec<char>, needle: &str) -> (r: bool)
    ensures
        r == has_infix(line@, needle@),
{
    let p = chars_of(needle);
    if p.len() > line.len() {
        return false;
    }
    let last: usize = line.len() - p.len();
    let mut k: usize = 0;
    while k < last
        invariant
            k <= last,
            last == line.len() - p.len(),
            p@ == needle@,
            forall|j: int| 0 <= j < k ==> !occurs_at(line@, p@, j),
        decreases last - k,
    {
        if matches_at(line, &p, k) {
            return true;
        }
        k += 1;
    }
    matches_at(line, &p, last)
}

/// The lines of `text`.
pub fn split_lines(text: &Vec<char>) -> (r: Vec<Vec<char>>)
    ensures
        seqs_of(r@) == lines_of(text@),
{
    let mut r: Vec<Vec<char>> = Vec::new();
    let mut start: usize = 0;
    let mut i: usize = 0;
    while i < text.len()
        invariant
            start <= i <= text.len(),
            seqs_of(r@) + lines_from(text@, i as int, start as int) == lines_of(text@),
        decreases text.len() - i,
    {
        if text[i] == '\n' {
            let end: usize = if start < i && text[i - 1] == '\r' {
                i - 1
            } else {
                i
            };
            let line = copy_range(text, start, end);
            proof {
                let rest = lines_from(text@, i + 1, i + 1);
                assert(seqs_of(r@.push(line)) =~= seqs_of(r@).push(line@));
                assert(seqs_of(r@).push(line@) + rest =~= seqs_of(r@) + (seq![line@] + rest));
            }
            r.push(line);
            start = i + 1;
        }
        i += 1;
    }
    if start < text.len() {
        let line = copy_range(text, start, text.len());
        proof {
            assert(seqs_of(r@.push(line)) =~= seqs_of(r@).push(line@));
            assert(seqs_of(r@).push(line@) =~= seqs_of(r@) + seq![line@]);
        }
        r.push(line);
    } else {
        assert(seqs_of(r@) + Seq::<Seq<char>>::empty() =~= seqs_of(r@));
    }
    r
}

/// The tokens of `line`.
pub fn split_tokens(line: &Vec<char>) -> (r: Vec<Vec<char>>)
    ensures
        seqs_of(r@) == tokens_of(line@),
        forall|k: int| 0 <= k < r.len() ==> is_word(#[trigger] r[k]@),
{
    let mut r: Vec<Vec<char>> = Vec::new();
    let mut open_at: Option<usize> = None;
    let mut i: usize = 0;
    while i < line.len()
        invariant
            i <= line.len(),
            open_at matches Some(b) ==> b < i,
            seqs_of(r@) + tokens_from(
                line@,
                i as int,
                match open_at {
                    Some(b) => Some(b as int),
                    None => None,
                },
            ) == tokens_of(line@),
        decreases line.len() - i,
    {
        if is_whitespace(line[i]) {
            if let Some(b) = open_at {
                let token = copy_range(line, b, i);
                proof {
                    let rest = tokens_from(line@, i + 1, None);
                    assert(seqs_of(r@.push(token)) =~= seqs_of(r@).push(token@));
                    assert(seqs_of(r@).push(token@) + rest =~= seqs_of(r@) + (seq![token@]
                        + rest));
                }
                r.push(token);
                open_at = None;
            }
        } else if open_at.is_none() {
            open_at = Some(i);
        }
        i += 1;
    }
    if let Some(b) = open_at {
        let token = copy_range(line, b, line.len());
        proof {
            assert(seqs_of(r@.push(token)) =~= seqs_of(r@).push(token@));
            assert(seqs_of(r@).push(token@) =~= seqs_of(r@) + seq![token@]);
        }
        r.push(token);
    } else {
        assert(seqs_of(r@) + Seq::<Seq<char>>::empty() =~= seqs_of(r@));
    }
    proof {
        lemma_tokens_are_words(line@);
        assert forall|k: int| 0 <= k < r.len() implies is_word(#[trigger] r[k]@) by {
            assert(seqs_of(r@)[k] == r[k]@);
        }
    }
    r
}

} // verus!
