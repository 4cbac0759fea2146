//! Words: the maximal runs of characters between ASCII whitespace.
//!
//! A command line is read as a sequence of words, and a deleted word is
//! taken off the end of that sequence before the rest is joined again.

use crate::text::push_char;
use vstd::prelude::*;

verus! {

/// ASCII whitespace: space, tab, line feed, form feed, carriage return.
pub open spec fn is_whitespace(c: char) -> bool {
    c == ' ' || c == '\t' || c == '\n' || c == '\x0C' || c == '\r'
}

/// A word: at least one character, none of them whitespace.
pub open spec fn is_word(w: Seq<char>) -> bool {
    w.len() > 0 && forall|j: int| 0 <= j < w.len() ==> !is_whitespace(#[trigger] w[j])
}

/// The words of `s`, left to right.
///
/// Read from the end of `s`: whitespace adds nothing, a character that
/// follows a non-whitespace character lengthens the last word, and any
/// other character starts a new word.
pub open spec fn words(s: Seq<char>) -> Seq<Seq<char>>
    decreases s.len(),
{
    if s.len() == 0 {
        Seq::empty()
    } else if is_whitespace(s.last()) {
        words(s.drop_last())
    } else if s.len() >= 2 && !is_whitespace(s[s.len() - 2]) {
        let before = words(s.drop_last());
        before.drop_last().push(before.last().push(s.last()))
    } else {
        words(s.drop_last()).push(seq![s.last()])
    }
}

/// `ws` written out with one space between neighbours.
pub open spec fn join(ws: Seq<Seq<char>>) -> Seq<char>
    decreases ws.len(),
{
    if ws.len() == 0 {
        Seq::empty()
    } else if ws.len() == 1 {
        ws[0]
    } else {
        join(ws.drop_last()) + seq![' '] + ws.last()
    }
}

/// `s` has no word at all: it is empty or whitespace throughout.
pub open spec fn is_blank(s: Seq<char>) -> bool {
    forall|i: int| 0 <= i < s.len() ==> is_whitespace(#[trigger] s[i])
}

/// The words found so far together with the word that is still growing.
spec fn with_open_word(done: Seq<Seq<char>>, open: Seq<char>) -> Seq<Seq<char>> {
    if open.len() > 0 {
        done.push(open)
    } else {
        done
    }
}

/// Whether `c` is ASCII whitespace.
pub fn is_whitespace_char(c: char) -> (r: bool)
    ensures
        r == is_whitespace(c),
{
    c == ' ' || c == '\t' || c == '\n' || c == '\x0C' || c == '\r'
}

/// Whether `s` is blank.
pub fn is_blank_text(s: &str) -> (r: bool)
    ensures
        r == is_blank(s@),
{
    let mut blank = true;
    assert(s@.take(0) == Seq::<char>::empty());
    for c in it: s.chars()
        invariant
            it.seq() == s@,
            blank == is_blank(s@.take(it.index() as int)),
    {
        proof {
            let read = s@.take(it.index() as int + 1);
            assert(read.drop_last() == s@.take(it.index() as int));
            assert(read.last() == c);
            lemma_blank_by_last(read);
        }
        if !is_whitespace_char(c) {
            blank = false;
        }
    }
    assert(s@.take(s@.len() as int) == s@);
    blank
}

/// A text is blank when its last character is whitespace and the text
/// before that is blank.
proof fn lemma_blank_by_last(s: Seq<char>)
    requires
        s.len() > 0,
    ensures
        is_blank(s) <==> is_blank(s.drop_last()) && is_whitespace(s.last()),
{
    let init = s.drop_last();
    if is_blank(s) {
        assert forall|i: int| 0 <= i < init.len() implies is_whitespace(#[trigger] init[i]) by {
            assert(init[i] == s[i]);
        }
        assert(is_whitespace(s[s.len() - 1]));
    }
    if is_blank(init) && is_whitespace(s.last()) {
        assert forall|i: int| 0 <= i < s.len() implies is_whitespace(#[trigger] s[i]) by {
            if i < init.len() {
                assert(init[i] == s[i]);
            }
        }
    }
}

/// Every word of `s` is a word, and a text that does not end in whitespace
/// has at least one.
pub proof fn lemma_words_are_words(s: Seq<char>)
    ensures
        forall|k: int| 0 <= k < words(s).len() ==> is_word(#[trigger] words(s)[k]),
        s.len() > 0 && !is_whitespace(s.last()) ==> words(s).len() > 0,
    decreases s.len(),
{
    if s.len() > 0 {
        lemma_words_are_words(s.drop_last());
        if !is_whitespace(s.last()) && s.len() >= 2 && !is_whitespace(s[s.len() - 2]) {
            assert(s.drop_last().last() == s[s.len() - 2]);
        }
    }
}

/// Every character of every word of `s` occurs in `s`.
pub proof fn lemma_words_come_from_text(s: Seq<char>)
    ensures
        forall|k: int, j: int|
            0 <= k < words(s).len() && 0 <= j < words(s)[k].len() ==> s.contains(
                #[trigger] words(s)[k][j],
            ),
    decreases s.len(),
{
    if s.len() > 0 {
        let init = s.drop_last();
        lemma_words_come_from_text(init);
        lemma_words_are_words(init);
        assert forall|k: int, j: int|
            0 <= k < words(s).len() && 0 <= j < words(s)[k].len() implies s.contains(
            #[trigger] words(s)[k][j],
        ) by {
            let c = words(s)[k][j];
            if is_whitespace(s.last()) {
                let i = choose|i: int| 0 <= i < init.len() && init[i] == c;
                assert(s[i] == c);
            } else if s.len() >= 2 && !is_whitespace(s[s.len() - 2]) {
                assert(init.last() == s[s.len() - 2]);
                let before = words(init);
                if k == before.len() - 1 && j == before.last().len() {
                    assert(s[s.len() - 1] == c);
                } else {
                    assert(c == before[k][j]);
                    let i = choose|i: int| 0 <= i < init.len() && init[i] == c;
                    assert(s[i] == c);
                }
            } else {
                if k == words(init).len() {
                    assert(s[s.len() - 1] == c);
                } else {
                    let i = choose|i: int| 0 <= i < init.len() && init[i] == c;
                    assert(s[i] == c);
                }
            }
        }
    }
}

/// A text has no words exactly when it is blank.
pub proof fn lemma_no_words_iff_blank(s: Seq<char>)
    ensures
        words(s).len() == 0 <==> is_blank(s),
    decreases s.len(),
{
    if s.len() > 0 {
        let init = s.drop_last();
        lemma_no_words_iff_blank(init);
        lemma_words_are_words(s);
        if is_whitespace(s.last()) {
            if is_blank(init) {
                assert forall|i: int| 0 <= i < s.len() implies is_whitespace(#[trigger] s[i]) by {
                    if i < init.len() {
                        assert(init[i] == s[i]);
                    }
                }
            } else {
                let i = choose|i: int| 0 <= i < init.len() && !is_whitespace(#[trigger] init[i]);
                assert(s[i] == init[i]);
            }
        } else {
            assert(!is_whitespace(s[s.len() - 1]));
        }
    }
}

/// Every character of `join(ws)` is a space or a character of one of `ws`.
pub proof fn lemma_join_chars(ws: Seq<Seq<char>>)
    ensures
        forall|i: int|
            0 <= i < join(ws).len() ==> #[trigger] join(ws)[i] == ' ' || exists|k: int, j: int|
                0 <= k < ws.len() && 0 <= j < ws[k].len() && ws[k][j] == join(ws)[i],
    decreases ws.len(),
{
    if ws.len() == 1 {
        assert forall|i: int| 0 <= i < join(ws).len() implies #[trigger] join(ws)[i] == ' '
            || exists|k: int, j: int|
            0 <= k < ws.len() && 0 <= j < ws[k].len() && ws[k][j] == join(ws)[i] by {
            assert(ws[0][i] == join(ws)[i]);
        }
    } else if ws.len() > 1 {
        let init = ws.drop_last();
        lemma_join_chars(init);
        assert forall|i: int| 0 <= i < join(ws).len() implies #[trigger] join(ws)[i] == ' '
            || exists|k: int, j: int|
            0 <= k < ws.len() && 0 <= j < ws[k].len() && ws[k][j] == join(ws)[i] by {
            let c = join(ws)[i];
            if i < join(init).len() {
                assert(c == join(init)[i]);
                if c != ' ' {
                    let (k, j) = choose|k: int, j: int|
                        0 <= k < init.len() && 0 <= j < init[k].len() && init[k][j] == c;
                    assert(ws[k][j] == c);
                }
            } else if i > join(init).len() {
                let j = i - join(init).len() - 1;
                assert(ws[ws.len() - 1][j] == c);
            }
        }
    }
}

/// Joining words and splitting the result gives the same words back.
pub proof fn lemma_words_of_join(ws: Seq<Seq<char>>)
    requires
        forall|k: int| 0 <= k < ws.len() ==> is_word(#[trigger] ws[k]),
    ensures
        words(join(ws)) == ws,
    decreases ws.len(),
{
    if ws.len() == 1 {
        assert(is_word(ws[0]));
        lemma_words_of_word(ws[0]);
    } else if ws.len() > 1 {
        let init = ws.drop_last();
        assert forall|k: int| 0 <= k < init.len() implies is_word(#[trigger] init[k]) by {
            assert(init[k] == ws[k]);
        }
        lemma_words_of_join(init);
        assert(is_word(ws.last()));
        lemma_words_after_space(join(init), ws.last(), ws.last().len() as int);
        assert(ws.last().take(ws.last().len() as int) == ws.last());
        assert(init.push(ws.last()) == ws);
    }
}

/// A word by itself is its only word.
proof fn lemma_words_of_word(w: Seq<char>)
    requires
        is_word(w),
    ensures
        words(w) == seq![w],
    decreases w.len(),
{
    if w.len() == 1 {
        assert(words(w.drop_last()).len() == 0);
        assert(seq![w.last()] == w);
        assert(Seq::<Seq<char>>::empty().push(w) == seq![w]);
    } else {
        let init = w.drop_last();
        assert forall|j: int| 0 <= j < init.len() implies !is_whitespace(#[trigger] init[j]) by {
            assert(init[j] == w[j]);
        }
        lemma_words_of_word(init);
        assert(!is_whitespace(w[w.len() - 2]));
        assert(!is_whitespace(w[w.len() - 1]));
        assert(init.push(w.last()) == w);
        assert(seq![init].drop_last().push(w) == seq![w]);
    }
}

/// After `head` and one space, the first `n` characters of a word `w` add
/// one word to those of `head`.
proof fn lemma_words_after_space(head: Seq<char>, w: Seq<char>, n: int)
    requires
        is_word(w),
        1 <= n <= w.len(),
    ensures
        words(head + seq![' '] + w.take(n)) == words(head).push(w.take(n)),
    decreases n,
{
    let s = head + seq![' '] + w.take(n);
    let gap = head + seq![' '];
    assert(s.last() == w[n - 1]);
    assert(!is_whitespace(w[n - 1]));
    if n == 1 {
        assert(s.drop_last() == gap);
        assert(s[s.len() - 2] == ' ');
        assert(gap.last() == ' ');
        assert(gap.drop_last() == head);
        assert(words(gap) == words(head));
        assert(w.take(1) == seq![w[0]]);
        assert(words(s) == words(gap).push(seq![s.last()]));
    } else {
        let shorter = head + seq![' '] + w.take(n - 1);
        lemma_words_after_space(head, w, n - 1);
        assert(s.drop_last() == shorter);
        assert(s[s.len() - 2] == w[n - 2]);
        assert(!is_whitespace(w[n - 2]));
        assert(w.take(n - 1).push(w[n - 1]) == w.take(n));
        let before = words(shorter);
        assert(before == words(head).push(w.take(n - 1)));
        assert(before.drop_last() == words(head));
        assert(before.last() == w.take(n - 1));
        assert(words(s) == before.drop_last().push(before.last().push(s.last())));
    }
}

/// The views of `v` after one more string.
proof fn lemma_deep_view_push(before: Seq<String>, after: Seq<String>, w: String)
    requires
        after == before.push(w),
    ensures
        Seq::new(after.len(), |i: int| after[i].deep_view()) == Seq::new(
            before.len(),
            |i: int| before[i].deep_view(),
        ).push(w@),
{
    let a = Seq::new(after.len(), |i: int| after[i].deep_view());
    let b = Seq::new(before.len(), |i: int| before[i].deep_view()).push(w@);
    assert(a.len() == b.len());
    assert forall|i: int| 0 <= i < a.len() implies a[i] == b[i] by {
        if i < before.len() {
            assert(after[i] == before[i]);
        } else {
            assert(after[i] == w);
        }
    }
    assert(a =~= b);
}

/// The words of `line`, left to right.
pub fn split_words(line: &str) -> (r: Vec<String>)
    ensures
        r.deep_view() == words(line@),
{
    let mut done: Vec<String> = Vec::new();
    let mut open = String::new();
    assert(done.deep_view() == Seq::<Seq<char>>::empty());
    assert(line@.take(0) == Seq::<char>::empty());
    for c in it: line.chars()
        invariant
            it.seq() == line@,
            open@.len() > 0 <==> it.index() > 0 && !is_whitespace(line@[it.index() - 1]),
            with_open_word(done.deep_view(), open@) == words(line@.take(it.index() as int)),
    {
        let ghost i = it.index() as int;
        let ghost read = line@.take(i + 1);
        proof {
            assert(read.drop_last() == line@.take(i));
            assert(read.last() == c);
            if i > 0 {
                assert(read[read.len() - 2] == line@[i - 1]);
            }
        }
        let ghost found = done.deep_view();
        if is_whitespace_char(c) {
            assert(words(read) == words(line@.take(i)));
            if open.as_str().unicode_len() > 0 {
                let ghost before = done@;
                let word = open;
                open = String::new();
                done.push(word);
                proof {
                    lemma_deep_view_push(before, done@, word);
                }
            }
        } else {
            proof {
                let before = words(line@.take(i));
                if open@.len() > 0 {
                    assert(before == found.push(open@));
                    assert(before.drop_last() == found);
                    assert(before.last() == open@);
                    assert(words(read) == before.drop_last().push(before.last().push(c)));
                } else {
                    assert(before == found);
                    assert(words(read) == before.push(seq![c]));
                    assert(open@.push(c) == seq![c]);
                }
            }
            push_char(&mut open, c);
        }
    }
    assert(line@.take(line@.len() as int) == line@);
    if open.as_str().unicode_len() > 0 {
        let ghost before = done@;
        done.push(open);
        proof {
            lemma_deep_view_push(before, done@, open);
        }
    }
    done
}

/// `ws` written out with one space between neighbours.
pub fn join_words(ws: &Vec<String>) -> (r: String)
    ensures
        r@ == join(ws.deep_view()),
{
    let mut out = String::new();
    let mut k: usize = 0;
    while k < ws.len()
        invariant
            0 <= k <= ws.len(),
            out@ == join(ws.deep_view().take(k as int)),
        decreases ws.len() - k,
    {
        proof {
            let upto = ws.deep_view().take(k as int + 1);
            assert(upto.drop_last() == ws.deep_view().take(k as int));
            assert(upto.last() == ws[k as int]@);
        }
        if k > 0 {
            push_char(&mut out, ' ');
        }
        out.append(ws[k].as_str());
        k = k + 1;
    }
    assert(ws.deep_view().take(ws.len() as int) == ws.deep_view());
    out
}

} // verus!
