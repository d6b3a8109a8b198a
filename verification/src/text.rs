//! Splitting a line into whitespace-separated tokens.

use vstd::prelude::*;

verus! {

/// Whether `c` has the Unicode property `White_Space`.
pub open spec fn is_space(c: char) -> bool {
    let n = c as u32;
    ||| 0x09 <= n <= 0x0d
    ||| n == 0x20
    ||| n == 0x85
    ||| n == 0xa0
    ||| n == 0x1680
    ||| 0x2000 <= n <= 0x200a
    ||| n == 0x2028
    ||| n == 0x2029
    ||| n == 0x202f
    ||| n == 0x205f
    ||| n == 0x3000
}

/// The code of `c`, with the ASCII capitals mapped to their small letters.
pub open spec fn lower_code(c: char) -> int {
    let n = c as u32 as int;
    if 0x41 <= n <= 0x5a {
        n + 0x20
    } else {
        n
    }
}

/// Whether `s` and `t` are equal up to the case of ASCII letters.
pub open spec fn eq_ignoring_case(s: Seq<char>, t: Seq<char>) -> bool {
    s.len() == t.len() && forall|i: int|
        0 <= i < s.len() ==> lower_code(#[trigger] s[i]) == lower_code(t[i])
}

/// A word is a non-empty run of characters none of which is white space.
pub open spec fn is_word(s: Seq<char>) -> bool {
    s.len() > 0 && forall|i: int| 0 <= i < s.len() ==> !is_space(#[trigger] s[i])
}

/// Number of characters at the start of `s` before the first white space.
pub open spec fn word_len(s: Seq<char>) -> nat
    decreases s.len(),
{
    if s.len() == 0 || is_space(s[0]) {
        0
    } else {
        1 + word_len(s.drop_first())
    }
}

/// The maximal runs of non-white-space characters of `s`, from left to right.
pub open spec fn tokens(s: Seq<char>) -> Seq<Seq<char>>
    decreases s.len(),
{
    if s.len() == 0 {
        Seq::empty()
    } else if is_space(s[0]) {
        tokens(s.drop_first())
    } else {
        proof {
            lemma_word_len_bound(s);
        }
        let n = word_len(s) as int;
        seq![s.take(n)] + tokens(s.skip(n))
    }
}

/// The leading word of `s` lies within `s`, and is not empty unless `s`
/// is empty or starts with white space.
pub proof fn lemma_word_len_bound(s: Seq<char>)
    ensures
        word_len(s) <= s.len(),
        s.len() > 0 && !is_space(s[0]) ==> word_len(s) >= 1,
    decreases s.len(),
{
    if s.len() > 0 && !is_space(s[0]) {
        lemma_word_len_bound(s.drop_first());
    }
}

/// The leading word of `s` holds no white space, and white space or the
/// end of `s` follows it.
pub proof fn lemma_word_len_chars(s: Seq<char>)
    ensures
        forall|i: int| 0 <= i < word_len(s) ==> !is_space(#[trigger] s[i]),
        word_len(s) < s.len() ==> is_space(s[word_len(s) as int]),
    decreases s.len(),
{
    lemma_word_len_bound(s);
    if s.len() > 0 && !is_space(s[0]) {
        let t = s.drop_first();
        lemma_word_len_chars(t);
        lemma_word_len_bound(t);
        assert forall|i: int| 0 <= i < word_len(s) implies !is_space(#[trigger] s[i]) by {
            if i > 0 {
                assert(s[i] == t[i - 1]);
            }
        }
        if word_len(s) < s.len() {
            assert(s[word_len(s) as int] == t[word_len(t) as int]);
        }
    }
}

/// A word that is followed by white space is the first token, and the tokens
/// of what follows it are the others.
pub proof fn lemma_tokens_after_word(word: Seq<char>, rest: Seq<char>)
    requires
        is_word(word),
        rest.len() > 0 ==> is_space(rest[0]),
    ensures
        tokens(word + rest) == seq![word] + tokens(rest),
{
    let s = word + rest;
    lemma_word_len_prefix(word, rest);
    assert(s[0] == word[0]);
    assert(s.take(word.len() as int) =~= word);
    assert(s.skip(word.len() as int) =~= rest);
}

/// The leading word of a word followed by white space is that word.
proof fn lemma_word_len_prefix(word: Seq<char>, rest: Seq<char>)
    requires
        forall|i: int| 0 <= i < word.len() ==> !is_space(#[trigger] word[i]),
        rest.len() > 0 ==> is_space(rest[0]),
    ensures
        word_len(word + rest) == word.len(),
    decreases word.len(),
{
    let s = word + rest;
    if word.len() == 0 {
        assert(s =~= rest);
    } else {
        assert(s[0] == word[0]);
        assert(s.drop_first() =~= word.drop_first() + rest);
        assert forall|i: int| 0 <= i < word.drop_first().len() implies !is_space(
            #[trigger] word.drop_first()[i],
        ) by {
            assert(word.drop_first()[i] == word[i + 1]);
        }
        lemma_word_len_prefix(word.drop_first(), rest);
    }
}

/// White space in front of a text adds no token.
pub proof fn lemma_tokens_after_space(c: char, rest: Seq<char>)
    requires
        is_space(c),
    ensures
        tokens(seq![c] + rest) == tokens(rest),
{
    let s = seq![c] + rest;
    assert(s[0] == c);
    assert(s.drop_first() =~= rest);
}

/// Whether `s` is empty or ends with white space.
pub open spec fn ends_open(s: Seq<char>) -> bool {
    s.len() == 0 || is_space(s.last())
}

/// Where a text that is empty or ends with white space is put before
/// another, the tokens of the two follow each other.
pub proof fn lemma_tokens_concat(a: Seq<char>, b: Seq<char>)
    requires
        ends_open(a),
    ensures
        tokens(a + b) == tokens(a) + tokens(b),
    decreases a.len(),
{
    let s = a + b;
    if a.len() == 0 {
        assert(s =~= b);
        assert(tokens(a) + tokens(b) =~= tokens(b));
    } else if is_space(a[0]) {
        let rest = a.drop_first();
        assert(s[0] == a[0]);
        assert(s.drop_first() =~= rest + b);
        if rest.len() > 0 {
            assert(rest.last() == a.last());
        }
        lemma_tokens_concat(rest, b);
    } else {
        lemma_word_len_bound(a);
        lemma_word_len_chars(a);
        let n = word_len(a) as int;
        assert(n < a.len()) by {
            if n == a.len() {
                assert(!is_space(a[a.len() - 1]));
            }
        }
        let word = a.take(n);
        let rest = a.skip(n);
        assert(rest[0] == a[n]);
        assert(rest.last() == a.last());
        assert(is_word(word));
        lemma_tokens_after_word(word, rest);
        assert(word + rest =~= a);
        lemma_tokens_after_word(word, rest + b);
        assert((rest + b)[0] == rest[0]);
        assert(word + (rest + b) =~= s);
        lemma_tokens_concat(rest, b);
        assert(seq![word] + (tokens(rest) + tokens(b)) =~= (seq![word] + tokens(rest)) + tokens(b));
    }
}

/// A word with a blank behind it is one token.
pub proof fn lemma_tokens_of_word(word: Seq<char>)
    requires
        is_word(word),
    ensures
        tokens(word + seq![' ']) == seq![word],
        tokens(word) == seq![word],
{
    let blank = seq![' '];
    assert(tokens(Seq::<char>::empty()) =~= Seq::<Seq<char>>::empty());
    assert(tokens(blank) =~= Seq::<Seq<char>>::empty()) by {
        assert(blank.drop_first() =~= Seq::<char>::empty());
    }
    lemma_tokens_after_word(word, blank);
    lemma_tokens_after_word(word, Seq::empty());
    assert(word + Seq::<char>::empty() =~= word);
    assert(seq![word] + Seq::<Seq<char>>::empty() =~= seq![word]);
}

/// Tells whether `c` is white space, as `char::is_whitespace` does.
pub fn is_space_char(c: char) -> (b: bool)
    ensures
        b == is_space(c),
{
    let n: u32 = c as u32;
    (0x09 <= n && n <= 0x0d) || n == 0x20 || n == 0x85 || n == 0xa0 || n == 0x1680 || (0x2000 <= n
        && n <= 0x200a) || n == 0x2028 || n == 0x2029 || n == 0x202f || n == 0x205f || n == 0x3000
}

/// The characters of `s`, in order.
pub(crate) fn chars_of(s: &str) -> (v: Vec<char>)
    ensures
        v@ == s@,
{
    let mut v: Vec<char> = Vec::new();
    for c in it: s.chars()
        invariant
            v@ == it.seq().take(it.index() as int),
            it.seq() == s@,
    {
        v.push(c);
    }
    v
}

/// Index of the first white space at or after `from`, or the length of `chars`.
fn word_end(chars: &Vec<char>, from: usize) -> (to: usize)
    requires
        from <= chars.len(),
    ensures
        from <= to <= chars.len(),
        to - from == word_len(chars@.skip(from as int)),
{
    let mut j: usize = from;
    while j < chars.len() && !is_space_char(chars[j])
        invariant
            from <= j <= chars.len(),
            word_len(chars@.skip(from as int)) == (j - from) + word_len(chars@.skip(j as int)),
        decreases chars.len() - j,
    {
        assert(chars@.skip(j as int).drop_first() =~= chars@.skip(j + 1));
        j += 1;
    }
    j
}

/// Splits `line` at white space, as `str::split_whitespace` does.
pub fn split_tokens(line: &str) -> (toks: Vec<String>)
    ensures
        toks.deep_view() == tokens(line@),
{
    let chars = chars_of(line);
    let mut toks: Vec<String> = Vec::new();
    let mut i: usize = 0;
    assert(line@.skip(0) =~= line@);
    assert(toks.deep_view() + tokens(line@) =~= tokens(line@));
    while i < chars.len()
        invariant
            chars@ == line@,
            0 <= i <= chars.len(),
            tokens(line@) == toks.deep_view() + tokens(line@.skip(i as int)),
        decreases chars.len() - i,
    {
        let ghost rest = line@.skip(i as int);
        if is_space_char(chars[i]) {
            assert(rest.drop_first() =~= line@.skip(i + 1));
            i += 1;
        } else {
            let j = word_end(&chars, i);
            proof {
                lemma_word_len_bound(rest);
                assert(rest.take(j - i) =~= line@.subrange(i as int, j as int));
                assert(rest.skip(j - i) =~= line@.skip(j as int));
            }
            let ghost before = toks.deep_view();
            toks.push(line.substring_char(i, j).to_owned());
            assert(toks.deep_view() =~= before + seq![line@.subrange(i as int, j as int)]);
            i = j;
        }
    }
    assert(line@.skip(i as int) =~= Seq::<char>::empty());
    toks
}

fn lower_code_of(c: char) -> (n: u32)
    ensures
        n == lower_code(c),
{
    let n: u32 = c as u32;
    if 0x41 <= n && n <= 0x5a {
        n + 0x20
    } else {
        n
    }
}

/// Whether the characters of `chars` from `from` on spell `word`, whatever
/// the case of their letters.
pub(crate) fn spells(chars: &Vec<char>, from: usize, word: &str) -> (b: bool)
    requires
        from <= chars.len(),
    ensures
        b == eq_ignoring_case(chars@.skip(from as int), word@),
{
    let w = chars_of(word);
    if chars.len() - from != w.len() {
        return false;
    }
    let ghost s = chars@.skip(from as int);
    let mut i: usize = 0;
    while i < w.len()
        invariant
            w@ == word@,
            s == chars@.skip(from as int),
            from <= chars.len(),
            chars.len() - from == w.len(),
            i <= w.len(),
            forall|k: int| 0 <= k < i ==> lower_code(#[trigger] s[k]) == lower_code(w@[k]),
        decreases w.len() - i,
    {
        assert(s[i as int] == chars@[from + i]);
        if lower_code_of(chars[from + i]) != lower_code_of(w[i]) {
            return false;
        }
        i += 1;
    }
    true
}

} // verus!
