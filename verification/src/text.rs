//! Character-level text handling: conversions between strings and character
//! vectors, whitespace-separated tokens, and newline-terminated lines.

use vstd::prelude::*;

verus! {

/// `String::push` appends exactly one character to the end of the string.
pub assume_specification[ String::push ](s: &mut String, c: char)
    ensures
        final(s)@ == old(s)@.push(c),
;

/// The characters with the Unicode `White_Space` property.
pub open spec fn is_space(c: char) -> bool {
    ||| ('\u{9}' <= c && c <= '\u{d}')
    ||| c == ' '
    ||| c == '\u{85}'
    ||| c == '\u{a0}'
    ||| c == '\u{1680}'
    ||| ('\u{2000}' <= c && c <= '\u{200a}')
    ||| c == '\u{2028}'
    ||| c == '\u{2029}'
    ||| c == '\u{202f}'
    ||| c == '\u{205f}'
    ||| c == '\u{3000}'
}

/// A word is a non-empty run of characters none of which is whitespace.
pub open spec fn is_word(w: Seq<char>) -> bool {
    &&& w.len() > 0
    &&& forall|i: int| 0 <= i < w.len() ==> !is_space(#[trigger] w[i])
}

/// The views of a sequence of strings.
pub open spec fn texts(v: Seq<String>) -> Seq<Seq<char>> {
    Seq::new(v.len(), |i: int| v[i]@)
}

/// The views of a sequence of character vectors.
pub open spec fn views(v: Seq<Vec<char>>) -> Seq<Seq<char>> {
    Seq::new(v.len(), |i: int| v[i]@)
}

/// The end of the run of non-whitespace characters that starts at `i`.
pub open spec fn word_end(s: Seq<char>, i: int) -> int
    decreases s.len() - i,
{
    if 0 <= i < s.len() && !is_space(s[i]) {
        word_end(s, i + 1)
    } else {
        i
    }
}

/// The whitespace-separated words of `s` that start at or after `i`.
pub open spec fn tokens_from(s: Seq<char>, i: int) -> Seq<Seq<char>>
    decreases s.len() - i,
{
    if i < 0 || i >= s.len() {
        Seq::empty()
    } else if is_space(s[i]) {
        tokens_from(s, i + 1)
    } else {
        let e = word_end(s, i);
        if i < e <= s.len() {
            seq![s.subrange(i, e)] + tokens_from(s, e)
        } else {
            Seq::empty()
        }
    }
}

/// The whitespace-separated words of `s`, in order.
pub open spec fn tokens(s: Seq<char>) -> Seq<Seq<char>> {
    tokens_from(s, 0)
}

/// The end of the line that starts at `i`: the next newline, or the end of the text.
pub open spec fn line_end(s: Seq<char>, i: int) -> int
    decreases s.len() - i,
{
    if 0 <= i < s.len() && s[i] != '\n' {
        line_end(s, i + 1)
    } else {
        i
    }
}

/// The lines of `s` that start at or after `i`.
pub open spec fn lines_from(s: Seq<char>, i: int) -> Seq<Seq<char>>
    decreases s.len() - i,
{
    if i < 0 || i >= s.len() {
        Seq::empty()
    } else {
        let e = line_end(s, i);
        if i <= e < s.len() {
            seq![s.subrange(i, e)] + lines_from(s, e + 1)
        } else {
            seq![s.subrange(i, s.len() as int)]
        }
    }
}

/// The lines of a text: the segments between newlines. A final segment that
/// is empty (the text is empty or ends in a newline) is no line.
pub open spec fn lines_of(s: Seq<char>) -> Seq<Seq<char>> {
    lines_from(s, 0)
}

/// Every line followed by a newline, in order.
pub open spec fn joined(lines: Seq<Seq<char>>) -> Seq<char>
    decreases lines.len(),
{
    if lines.len() == 0 {
        Seq::empty()
    } else {
        lines.first() + seq!['\n'] + joined(lines.drop_first())
    }
}

/// The words separated by single spaces.
pub open spec fn spaced(words: Seq<Seq<char>>) -> Seq<char>
    decreases words.len(),
{
    if words.len() == 0 {
        Seq::empty()
    } else if words.len() == 1 {
        words.first()
    } else {
        words.first() + seq![' '] + spaced(words.drop_first())
    }
}

/// No newline occurs in `line`.
pub open spec fn single_line(line: Seq<char>) -> bool {
    forall|i: int| 0 <= i < line.len() ==> #[trigger] line[i] != '\n'
}

pub proof fn lemma_word_end_bounds(s: Seq<char>, i: int)
    requires
        0 <= i <= s.len(),
    ensures
        i <= word_end(s, i) <= s.len(),
        forall|k: int| i <= k < word_end(s, i) ==> !is_space(#[trigger] s[k]),
        word_end(s, i) < s.len() ==> is_space(s[word_end(s, i)]),
    decreases s.len() - i,
{
    if i < s.len() && !is_space(s[i]) {
        lemma_word_end_bounds(s, i + 1);
    }
}

pub proof fn lemma_line_end_bounds(s: Seq<char>, i: int)
    requires
        0 <= i <= s.len(),
    ensures
        i <= line_end(s, i) <= s.len(),
        forall|k: int| i <= k < line_end(s, i) ==> #[trigger] s[k] != '\n',
        line_end(s, i) < s.len() ==> s[line_end(s, i)] == '\n',
    decreases s.len() - i,
{
    if i < s.len() && s[i] != '\n' {
        lemma_line_end_bounds(s, i + 1);
    }
}

/// A run of non-whitespace characters that ends at whitespace, or at the end
/// of the text, ends where `word_end` says.
pub proof fn lemma_word_end_run(s: Seq<char>, i: int, e: int)
    requires
        0 <= i <= e <= s.len(),
        forall|k: int| i <= k < e ==> !is_space(#[trigger] s[k]),
        e < s.len() ==> is_space(s[e]),
    ensures
        word_end(s, i) == e,
    decreases e - i,
{
    if i < e {
        lemma_word_end_run(s, i + 1, e);
    }
}

pub proof fn lemma_line_end_run(s: Seq<char>, i: int, e: int)
    requires
        0 <= i <= e <= s.len(),
        forall|k: int| i <= k < e ==> #[trigger] s[k] != '\n',
        e < s.len() ==> s[e] == '\n',
    ensures
        line_end(s, i) == e,
    decreases e - i,
{
    if i < e {
        lemma_line_end_run(s, i + 1, e);
    }
}

/// The tokens of a text after a prefix are the tokens of what follows the prefix.
pub proof fn lemma_tokens_shift(a: Seq<char>, b: Seq<char>, i: int)
    requires
        0 <= i <= b.len(),
    ensures
        tokens_from(a + b, a.len() + i) == tokens_from(b, i),
    decreases b.len() - i,
{
    let s = a + b;
    let j = a.len() + i;
    if i < b.len() {
        assert(s[j] == b[i]);
        if is_space(b[i]) {
            lemma_tokens_shift(a, b, i + 1);
        } else {
            let e = word_end(b, i);
            lemma_word_end_bounds(b, i);
            assert forall|k: int| j <= k < a.len() + e implies !is_space(#[trigger] s[k]) by {
                assert(s[k] == b[k - a.len()]);
            }
            if e < b.len() {
                assert(s[a.len() + e] == b[e]);
            }
            lemma_word_end_run(s, j, a.len() + e);
            lemma_tokens_shift(a, b, e);
            assert(s.subrange(j, a.len() + e) == b.subrange(i, e));
        }
    }
}

/// The lines of a text after a prefix are the lines of what follows the prefix.
pub proof fn lemma_lines_shift(a: Seq<char>, b: Seq<char>, i: int)
    requires
        0 <= i <= b.len(),
    ensures
        lines_from(a + b, a.len() + i) == lines_from(b, i),
    decreases b.len() - i,
{
    let s = a + b;
    let j = a.len() + i;
    if i < b.len() {
        let e = line_end(b, i);
        lemma_line_end_bounds(b, i);
        assert forall|k: int| j <= k < a.len() + e implies #[trigger] s[k] != '\n' by {
            assert(s[k] == b[k - a.len()]);
        }
        if e < b.len() {
            assert(s[a.len() + e] == b[e]);
            lemma_lines_shift(a, b, e + 1);
        }
        lemma_line_end_run(s, j, a.len() + e);
        assert(s.subrange(j, a.len() + e) == b.subrange(i, e));
        assert(s.subrange(j, s.len() as int) == b.subrange(i, b.len() as int));
    }
}

/// A word followed by whitespace, or by nothing, is the first token.
pub proof fn lemma_tokens_word_first(w: Seq<char>, rest: Seq<char>)
    requires
        is_word(w),
        rest.len() > 0 ==> is_space(rest[0]),
    ensures
        tokens(w + rest) == seq![w] + tokens(rest),
{
    let s = w + rest;
    assert forall|k: int| 0 <= k < w.len() implies !is_space(#[trigger] s[k]) by {
        assert(s[k] == w[k]);
    }
    if rest.len() > 0 {
        assert(s[w.len() as int] == rest[0]);
    }
    lemma_word_end_run(s, 0, w.len() as int);
    lemma_tokens_shift(w, rest, 0);
    assert(s.subrange(0, w.len() as int) == w);
    assert(!is_space(s[0]));
}

/// Whitespace before a text adds no token.
pub proof fn lemma_tokens_space_first(c: char, rest: Seq<char>)
    requires
        is_space(c),
    ensures
        tokens(seq![c] + rest) == tokens(rest),
{
    let s = seq![c] + rest;
    assert(s[0] == c);
    lemma_tokens_shift(seq![c], rest, 0);
}

/// The tokens of words separated by single spaces are those words.
pub proof fn lemma_tokens_of_spaced(words: Seq<Seq<char>>)
    requires
        forall|i: int| 0 <= i < words.len() ==> is_word(#[trigger] words[i]),
    ensures
        tokens(spaced(words)) == words,
    decreases words.len(),
{
    if words.len() == 0 {
    } else if words.len() == 1 {
        assert(is_word(words[0]));
        lemma_tokens_word_first(words.first(), Seq::empty());
        assert(words.first() + Seq::<char>::empty() == words.first());
        assert(seq![words.first()] + Seq::<Seq<char>>::empty() == words);
    } else {
        let rest = words.drop_first();
        assert forall|i: int| 0 <= i < rest.len() implies is_word(#[trigger] rest[i]) by {
            assert(rest[i] == words[i + 1]);
        }
        lemma_tokens_of_spaced(rest);
        let tail = seq![' '] + spaced(rest);
        assert(is_word(words[0]));
        assert(tail[0] == ' ');
        lemma_tokens_word_first(words.first(), tail);
        lemma_tokens_space_first(' ', spaced(rest));
        assert(words.first() + tail == spaced(words));
        assert(seq![words.first()] + rest == words);
    }
}

/// Words separated by spaces hold no newline where the words hold none.
pub proof fn lemma_spaced_single_line(words: Seq<Seq<char>>)
    requires
        forall|i: int| 0 <= i < words.len() ==> single_line(#[trigger] words[i]),
    ensures
        single_line(spaced(words)),
    decreases words.len(),
{
    if words.len() == 0 {
    } else if words.len() == 1 {
        assert(single_line(words[0]));
    } else {
        let rest = words.drop_first();
        assert forall|i: int| 0 <= i < rest.len() implies single_line(#[trigger] rest[i]) by {
            assert(rest[i] == words[i + 1]);
        }
        lemma_spaced_single_line(rest);
        assert(single_line(words[0]));
        let s = spaced(words);
        let w = words.first();
        assert forall|k: int| 0 <= k < s.len() implies #[trigger] s[k] != '\n' by {
            if k < w.len() {
                assert(s[k] == w[k]);
            } else if k == w.len() {
                assert(s[k] == ' ');
            } else {
                assert(s[k] == spaced(rest)[k - w.len() - 1]);
            }
        }
    }
}

/// A word holds no newline.
pub proof fn lemma_word_single_line(w: Seq<char>)
    requires
        is_word(w),
    ensures
        single_line(w),
{
    assert forall|k: int| 0 <= k < w.len() implies #[trigger] w[k] != '\n' by {
        assert(!is_space(w[k]));
    }
}

/// Every line of a text is free of newlines.
pub proof fn lemma_lines_are_single(s: Seq<char>, i: int)
    requires
        0 <= i <= s.len(),
    ensures
        forall|k: int| 0 <= k < lines_from(s, i).len() ==> single_line(#[trigger] lines_from(s, i)[k]),
    decreases s.len() - i,
{
    if i < s.len() {
        let all = lines_from(s, i);
        let e = line_end(s, i);
        lemma_line_end_bounds(s, i);
        let head = s.subrange(i, e);
        assert(single_line(head));
        if e < s.len() {
            lemma_lines_are_single(s, e + 1);
            assert(all == seq![head] + lines_from(s, e + 1));
            assert forall|k: int| 0 <= k < all.len() implies single_line(#[trigger] all[k]) by {
                if k > 0 {
                    assert(all[k] == lines_from(s, e + 1)[k - 1]);
                } else {
                    assert(all[0] == head);
                }
            }
        } else {
            assert(all == seq![head]);
            assert forall|k: int| 0 <= k < all.len() implies single_line(#[trigger] all[k]) by {
                assert(all[0] == head);
            }
        }
    }
}

/// A line without a newline, followed by a newline, is the first line.
pub proof fn lemma_lines_line_first(line: Seq<char>, rest: Seq<char>)
    requires
        single_line(line),
    ensures
        lines_of(line + seq!['\n'] + rest) == seq![line] + lines_of(rest),
{
    let head = line + seq!['\n'];
    let s = head + rest;
    assert forall|k: int| 0 <= k < line.len() implies #[trigger] s[k] != '\n' by {
        assert(s[k] == line[k]);
    }
    assert(s[line.len() as int] == '\n');
    lemma_line_end_run(s, 0, line.len() as int);
    lemma_lines_shift(head, rest, 0);
    assert(s.subrange(0, line.len() as int) == line);
}

/// Splitting what `joined` made gives the lines back.
pub proof fn lemma_lines_of_joined(lines: Seq<Seq<char>>)
    requires
        forall|i: int| 0 <= i < lines.len() ==> single_line(#[trigger] lines[i]),
    ensures
        lines_of(joined(lines)) == lines,
    decreases lines.len(),
{
    if lines.len() > 0 {
        let rest = lines.drop_first();
        assert forall|i: int| 0 <= i < rest.len() implies single_line(#[trigger] rest[i]) by {
            assert(rest[i] == lines[i + 1]);
        }
        lemma_lines_of_joined(rest);
        lemma_lines_line_first(lines.first(), joined(rest));
        assert(seq![lines.first()] + rest == lines);
    }
}

/// Joining one more line appends it and a newline.
pub proof fn lemma_joined_push(lines: Seq<Seq<char>>, line: Seq<char>)
    ensures
        joined(lines.push(line)) == joined(lines) + line + seq!['\n'],
    decreases lines.len(),
{
    if lines.len() == 0 {
        assert(lines.push(line).drop_first() == Seq::<Seq<char>>::empty());
        assert(joined(lines.push(line)) == line + seq!['\n'] + joined(Seq::<Seq<char>>::empty()));
    } else {
        assert(lines.push(line).drop_first() == lines.drop_first().push(line));
        lemma_joined_push(lines.drop_first(), line);
        assert(lines.push(line).first() == lines.first());
    }
}

/// Whether `c` is a whitespace character.
pub fn is_whitespace(c: char) -> (r: bool)
    ensures
        r == is_space(c),
{
    ('\u{9}' <= c && c <= '\u{d}') || c == ' ' || c == '\u{85}' || c == '\u{a0}' || c
        == '\u{1680}' || ('\u{2000}' <= c && c <= '\u{200a}') || c == '\u{2028}' || c
        == '\u{2029}' || c == '\u{202f}' || c == '\u{205f}' || c == '\u{3000}'
}

/// The characters of a string.
pub fn chars_of(s: &str) -> (r: Vec<char>)
    ensures
        r@ == s@,
{
    let mut out: Vec<char> = Vec::new();
    for c in it: s.chars()
        invariant
            out@ == it.seq().subrange(0, it.index() as int),
            it.seq() == s@,
    {
        out.push(c);
    }
    out
}

/// The string made of the characters `v[from..to]`.
pub fn string_of_range(v: &Vec<char>, from: usize, to: usize) -> (r: String)
    requires
        from <= to <= v.len(),
    ensures
        r@ == v@.subrange(from as int, to as int),
{
    let mut out = String::new();
    let mut i: usize = from;
    while i < to
        invariant
            from <= i <= to <= v.len(),
            out@ == v@.subrange(from as int, i as int),
        decreases to - i,
    {
        out.push(v[i]);
        i = i + 1;
    }
    out
}

/// The string made of the characters of `v`.
pub fn string_of(v: &Vec<char>) -> (r: String)
    ensures
        r@ == v@,
{
    let r = string_of_range(v, 0, v.len());
    assert(v@.subrange(0, v.len() as int) == v@);
    r
}

/// Appends the characters of `s` to `out`.
pub fn push_str(out: &mut Vec<char>, s: &str)
    ensures
        final(out)@ == old(out)@ + s@,
{
    let ghost before = out@;
    for c in it: s.chars()
        invariant
            out@ == before + it.seq().subrange(0, it.index() as int),
            it.seq() == s@,
    {
        out.push(c);
    }
}

/// Appends the characters of `v` to `out`.
pub fn push_chars(out: &mut Vec<char>, v: &Vec<char>)
    ensures
        final(out)@ == old(out)@ + v@,
{
    let ghost before = out@;
    let mut i: usize = 0;
    while i < v.len()
        invariant
            i <= v.len(),
            out@ == before + v@.subrange(0, i as int),
        decreases v.len() - i,
    {
        out.push(v[i]);
        i = i + 1;
    }
    assert(v@.subrange(0, v.len() as int) == v@);
}

/// Whether two character vectors hold the same characters.
pub fn same_chars(a: &Vec<char>, b: &Vec<char>) -> (r: bool)
    ensures
        r == (a@ == b@),
{
    if a.len() != b.len() {
        return false;
    }
    let mut i: usize = 0;
    while i < a.len()
        invariant
            i <= a.len(),
            a.len() == b.len(),
            a@.subrange(0, i as int) == b@.subrange(0, i as int),
        decreases a.len() - i,
    {
        if a[i] != b[i] {
            return false;
        }
        assert(a@.subrange(0, i + 1) == a@.subrange(0, i as int).push(a@[i as int]));
        assert(b@.subrange(0, i + 1) == b@.subrange(0, i as int).push(b@[i as int]));
        i = i + 1;
    }
    assert(a@.subrange(0, a.len() as int) == a@);
    assert(b@.subrange(0, b.len() as int) == b@);
    true
}

/// Splits a line into its whitespace-separated words.
pub fn split_tokens(line: &Vec<char>) -> (r: Vec<Vec<char>>)
    ensures
        views(r@) == tokens(line@),
{
    let mut out: Vec<Vec<char>> = Vec::new();
    let n: usize = line.len();
    let mut i: usize = 0;
    while i < n
        invariant
            n == line.len(),
            i <= n,
            tokens(line@) == views(out@) + tokens_from(line@, i as int),
        decreases n - i,
    {
        if is_whitespace(line[i]) {
            i = i + 1;
        } else {
            let start: usize = i;
            let mut word: Vec<char> = Vec::new();
            while i < n && !is_whitespace(line[i])
                invariant
                    n == line.len(),
                    start <= i <= n,
                    word@ == line@.subrange(start as int, i as int),
                    word_end(line@, start as int) == word_end(line@, i as int),
                decreases n - i,
            {
                word.push(line[i]);
                i = i + 1;
            }
            proof {
                lemma_word_end_bounds(line@, start as int);
                assert(word_end(line@, i as int) == i);
                assert(views(out@.push(word)) == views(out@) + seq![word@]);
            }
            out.push(word);
        }
    }
    assert(tokens_from(line@, n as int) == Seq::<Seq<char>>::empty());
    out
}

/// Splits a text into its lines.
pub fn split_lines(text: &Vec<char>) -> (r: Vec<Vec<char>>)
    ensures
        views(r@) == lines_of(text@),
{
    let mut out: Vec<Vec<char>> = Vec::new();
    let n: usize = text.len();
    let mut i: usize = 0;
    while i < n
        invariant
            n == text.len(),
            i <= n,
            lines_of(text@) == views(out@) + lines_from(text@, i as int),
        decreases n - i,
    {
        let start: usize = i;
        let mut line: Vec<char> = Vec::new();
        while i < n && text[i] != '\n'
            invariant
                n == text.len(),
                start <= i <= n,
                line@ == text@.subrange(start as int, i as int),
                line_end(text@, start as int) == line_end(text@, i as int),
            decreases n - i,
        {
            line.push(text[i]);
            i = i + 1;
        }
        proof {
            lemma_line_end_bounds(text@, start as int);
            assert(line_end(text@, i as int) == i);
            assert(views(out@.push(line)) == views(out@) + seq![line@]);
        }
        out.push(line);
        if i < n {
            i = i + 1;
        } else {
            assert(lines_from(text@, start as int) == seq![line@]);
        }
    }
    assert(lines_from(text@, n as int) == Seq::<Seq<char>>::empty());
    out
}

/// Writes every line followed by a newline.
pub fn join_lines(lines: &Vec<Vec<char>>) -> (r: Vec<char>)
    ensures
        r@ == joined(views(lines@)),
{
    let mut out: Vec<char> = Vec::new();
    let mut i: usize = 0;
    while i < lines.len()
        invariant
            i <= lines.len(),
            out@ == joined(views(lines@).subrange(0, i as int)),
        decreases lines.len() - i,
    {
        proof {
            let done = views(lines@).subrange(0, i as int);
            lemma_joined_push(done, lines@[i as int]@);
            assert(views(lines@).subrange(0, i + 1) == done.push(lines@[i as int]@));
        }
        push_chars(&mut out, &lines[i]);
        out.push('\n');
        i = i + 1;
    }
    assert(views(lines@).subrange(0, lines.len() as int) == views(lines@));
    out
}

/// Appends every line followed by a newline.
pub fn push_lines(out: &mut Vec<char>, lines: &Vec<String>)
    ensures
        final(out)@ == old(out)@ + joined(texts(lines@)),
{
    let ghost before = out@;
    let mut i: usize = 0;
    while i < lines.len()
        invariant
            i <= lines.len(),
            out@ == before + joined(texts(lines@).subrange(0, i as int)),
        decreases lines.len() - i,
    {
        proof {
            let done = texts(lines@).subrange(0, i as int);
            lemma_joined_push(done, lines@[i as int]@);
            assert(texts(lines@).subrange(0, i + 1) == done.push(lines@[i as int]@));
        }
        push_str(out, lines[i].as_str());
        out.push('\n');
        i = i + 1;
    }
    assert(texts(lines@).subrange(0, lines.len() as int) == texts(lines@));
}

} // verus!
