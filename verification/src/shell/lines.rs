//! Lists of lines: how they are joined, how a text is split into them, and
//! how they are laid out in a file.

use crate::text::{chars_of, white_space};
use vstd::prelude::*;
use vstd::string::StringExecFns;

verus! {

/// The texts of a list of strings, in order.
pub open spec fn lines_view(v: Seq<String>) -> Seq<Seq<char>> {
    Seq::new(v.len(), |i: int| v[i]@)
}

/// One more string at the end of a list is one more text at the end of the
/// list's texts.
pub proof fn lemma_lines_view_push(v: Seq<String>, s: String)
    ensures
        lines_view(v.push(s)) == lines_view(v).push(s@),
{
    assert(lines_view(v.push(s)) =~= lines_view(v).push(s@));
}

/// The lines with `sep` between each two of them.
pub open spec fn joined(lines: Seq<Seq<char>>, sep: Seq<char>) -> Seq<char>
    decreases lines.len(),
{
    if lines.len() == 0 {
        Seq::empty()
    } else if lines.len() == 1 {
        lines[0]
    } else {
        joined(lines.drop_last(), sep) + sep + lines.last()
    }
}

/// The pieces of `s` between the occurrences of `sep`: one more than there
/// are occurrences.
pub open spec fn split_at(s: Seq<char>, sep: char) -> Seq<Seq<char>>
    decreases s.len(),
{
    if s.len() == 0 {
        seq![Seq::empty()]
    } else {
        let before = split_at(s.drop_last(), sep);
        if s.last() == sep {
            before.push(Seq::empty())
        } else {
            before.drop_last().push(before.last().push(s.last()))
        }
    }
}

/// The number of white space characters at the start of `s`.
pub open spec fn lead(s: Seq<char>) -> nat
    decreases s.len(),
{
    if s.len() > 0 && white_space(s[0]) {
        1 + lead(s.skip(1))
    } else {
        0
    }
}

/// The number of white space characters at the end of `s`.
pub open spec fn trail(s: Seq<char>) -> nat
    decreases s.len(),
{
    if s.len() > 0 && white_space(s.last()) {
        1 + trail(s.drop_last())
    } else {
        0
    }
}

/// `s` without the white space at its start and at its end.
pub open spec fn trimmed(s: Seq<char>) -> Seq<char> {
    if lead(s) >= s.len() {
        Seq::empty()
    } else {
        s.subrange(lead(s) as int, s.len() - trail(s))
    }
}

/// The pieces, each trimmed, that are not empty then.
pub open spec fn kept(pieces: Seq<Seq<char>>) -> Seq<Seq<char>>
    decreases pieces.len(),
{
    if pieces.len() == 0 {
        Seq::empty()
    } else {
        let t = trimmed(pieces.last());
        if t.len() > 0 {
            kept(pieces.drop_last()).push(t)
        } else {
            kept(pieces.drop_last())
        }
    }
}

/// The lines of the output of a command: the pieces between line feeds,
/// trimmed, without those that are empty then.
pub open spec fn output_lines(raw: Seq<char>) -> Seq<Seq<char>> {
    kept(split_at(raw, '\n'))
}

/// The lines of a file: the pieces between line feeds, without the empty
/// piece after the last line feed, or of an empty file.
pub open spec fn file_lines(content: Seq<char>) -> Seq<Seq<char>> {
    let pieces = split_at(content, '\n');
    if pieces.last().len() == 0 {
        pieces.drop_last()
    } else {
        pieces
    }
}

/// The content of a file that holds the lines: each line with a line feed
/// after it.
pub open spec fn file_text(lines: Seq<Seq<char>>) -> Seq<char>
    decreases lines.len(),
{
    if lines.len() == 0 {
        Seq::empty()
    } else {
        file_text(lines.drop_last()) + lines.last() + seq!['\n']
    }
}

/// The white space at the start of a text is white space, and ends within
/// the text, before a character that is none.
pub proof fn lemma_lead(s: Seq<char>)
    ensures
        lead(s) <= s.len(),
        forall|i: int| 0 <= i < lead(s) ==> white_space(#[trigger] s[i]),
        lead(s) < s.len() ==> !white_space(s[lead(s) as int]),
    decreases s.len(),
{
    if s.len() > 0 && white_space(s[0]) {
        let t = s.skip(1);
        lemma_lead(t);
        assert forall|i: int| 0 <= i < lead(s) implies white_space(#[trigger] s[i]) by {
            if i > 0 {
                assert(s[i] == t[i - 1]);
            }
        }
        if lead(s) < s.len() {
            assert(s[lead(s) as int] == t[lead(t) as int]);
        }
    }
}

/// The white space at the end of a text is white space, and starts within
/// the text, after a character that is none.
pub proof fn lemma_trail(s: Seq<char>)
    ensures
        trail(s) <= s.len(),
        forall|i: int| s.len() - trail(s) <= i < s.len() ==> white_space(#[trigger] s[i]),
        trail(s) < s.len() ==> !white_space(s[s.len() - trail(s) - 1]),
    decreases s.len(),
{
    if s.len() > 0 && white_space(s.last()) {
        let t = s.drop_last();
        lemma_trail(t);
        assert forall|i: int| s.len() - trail(s) <= i < s.len() implies white_space(
            #[trigger] s[i],
        ) by {
            if i < s.len() - 1 {
                assert(s[i] == t[i]);
            }
        }
        if trail(s) < s.len() {
            assert(s[s.len() - trail(s) - 1] == t[t.len() - trail(t) - 1]);
        }
    }
}

/// In a text that is not all white space, the white space at the start
/// ends before the white space at the end starts.
pub proof fn lemma_trimmed_range(s: Seq<char>)
    ensures
        lead(s) < s.len() ==> lead(s) + trail(s) < s.len(),
        lead(s) < s.len() ==> trimmed(s).len() == s.len() - lead(s) - trail(s),
        lead(s) >= s.len() ==> trimmed(s).len() == 0,
{
    lemma_lead(s);
    lemma_trail(s);
    if lead(s) < s.len() {
        if lead(s) + trail(s) >= s.len() {
            assert(white_space(s[lead(s) as int]));
        }
    }
}

/// Splitting yields at least one piece.
pub proof fn lemma_split_at_len(s: Seq<char>, sep: char)
    ensures
        split_at(s, sep).len() >= 1,
    decreases s.len(),
{
    if s.len() > 0 {
        lemma_split_at_len(s.drop_last(), sep);
    }
}

/// No piece holds the separator.
pub proof fn lemma_split_at_clean(s: Seq<char>, sep: char)
    ensures
        forall|i: int, j: int|
            0 <= i < split_at(s, sep).len() && 0 <= j < split_at(s, sep)[i].len() ==> (
            #[trigger] split_at(s, sep)[i][j]) != sep,
    decreases s.len(),
{
    if s.len() > 0 {
        lemma_split_at_clean(s.drop_last(), sep);
        lemma_split_at_len(s.drop_last(), sep);
    }
}

/// A text without the separator, added to a text, is added to its last
/// piece.
pub proof fn lemma_split_at_extend(s: Seq<char>, t: Seq<char>, sep: char)
    requires
        forall|j: int| 0 <= j < t.len() ==> t[j] != sep,
    ensures
        split_at(s + t, sep) == split_at(s, sep).drop_last().push(split_at(s, sep).last() + t),
    decreases t.len(),
{
    lemma_split_at_len(s, sep);
    let p = split_at(s, sep);
    if t.len() == 0 {
        assert(s + t =~= s);
        assert(p.last() + t =~= p.last());
        assert(p.drop_last().push(p.last()) =~= p);
    } else {
        lemma_split_at_extend(s, t.drop_last(), sep);
        assert((s + t).drop_last() =~= s + t.drop_last());
        let q = split_at(s + t.drop_last(), sep);
        assert(q.last().push(t.last()) =~= p.last() + t);
        assert(q.drop_last() =~= p.drop_last());
    }
}

/// Lines that hold no line feed, laid out in a file, are split into these
/// lines and an empty piece after them.
pub proof fn lemma_file_text_pieces(lines: Seq<Seq<char>>)
    requires
        forall|i: int, j: int|
            0 <= i < lines.len() && 0 <= j < lines[i].len() ==> (#[trigger] lines[i][j]) != '\n',
    ensures
        split_at(file_text(lines), '\n') == lines.push(Seq::empty()),
    decreases lines.len(),
{
    if lines.len() == 0 {
        assert(split_at(file_text(lines), '\n') =~= lines.push(Seq::empty()));
    } else {
        let front = lines.drop_last();
        let last = lines.last();
        lemma_file_text_pieces(front);
        let t = file_text(front);
        assert forall|j: int| 0 <= j < last.len() implies last[j] != '\n' by {
            assert(lines[lines.len() - 1][j] != '\n');
        }
        lemma_split_at_extend(t, last, '\n');
        let whole = t + last + seq!['\n'];
        assert(whole.drop_last() =~= t + last);
        assert(whole.last() == '\n');
        let p = split_at(t + last, '\n');
        assert(Seq::<char>::empty() + last =~= last);
        assert(p =~= lines);
        assert(split_at(whole, '\n') == p.push(Seq::empty()));
    }
}

/// Lines that hold no line feed are read back from a file as they were
/// written to it.
pub proof fn lemma_file_round_trip(lines: Seq<Seq<char>>)
    requires
        forall|i: int, j: int|
            0 <= i < lines.len() && 0 <= j < lines[i].len() ==> (#[trigger] lines[i][j]) != '\n',
    ensures
        file_lines(file_text(lines)) == lines,
{
    lemma_file_text_pieces(lines);
    assert(lines.push(Seq::empty()).drop_last() =~= lines);
}

/// No line of the output of a command holds a line feed, and none is
/// empty.
pub proof fn lemma_output_lines_clean(raw: Seq<char>)
    ensures
        forall|i: int, j: int|
            0 <= i < output_lines(raw).len() && 0 <= j < output_lines(raw)[i].len() ==> (
            #[trigger] output_lines(raw)[i][j]) != '\n',
        forall|i: int| 0 <= i < output_lines(raw).len() ==> (#[trigger] output_lines(raw)[i]).len()
            > 0,
{
    lemma_split_at_clean(raw, '\n');
    lemma_kept_clean(split_at(raw, '\n'), '\n');
}

/// What is kept of pieces without a character holds none, and is not
/// empty.
pub proof fn lemma_kept_clean(pieces: Seq<Seq<char>>, sep: char)
    requires
        forall|i: int, j: int|
            0 <= i < pieces.len() && 0 <= j < pieces[i].len() ==> (#[trigger] pieces[i][j]) != sep,
    ensures
        forall|i: int, j: int|
            0 <= i < kept(pieces).len() && 0 <= j < kept(pieces)[i].len() ==> (#[trigger] kept(
                pieces,
            )[i][j]) != sep,
        forall|i: int| 0 <= i < kept(pieces).len() ==> (#[trigger] kept(pieces)[i]).len() > 0,
    decreases pieces.len(),
{
    if pieces.len() > 0 {
        let front = pieces.drop_last();
        assert forall|i: int, j: int| 0 <= i < front.len() && 0 <= j < front[i].len() implies (
        #[trigger] front[i][j]) != sep by {
            assert(pieces[i][j] != sep);
        }
        lemma_kept_clean(front, sep);
        let last = pieces.last();
        let t = trimmed(last);
        lemma_trimmed_range(last);
        assert forall|j: int| 0 <= j < t.len() implies t[j] != sep by {
            assert(t[j] == pieces[pieces.len() - 1][j + lead(last)]);
        }
        let k = kept(pieces);
        let kf = kept(front);
        assert forall|i: int, j: int| 0 <= i < k.len() && 0 <= j < k[i].len() implies (
        #[trigger] k[i][j]) != sep by {
            if i < kf.len() {
                assert(k[i] == kf[i]);
                assert(kf[i][j] != sep);
            } else {
                assert(k[i] == t);
            }
        }
        assert forall|i: int| 0 <= i < k.len() implies (#[trigger] k[i]).len() > 0 by {
            if i < kf.len() {
                assert(k[i] == kf[i]);
            }
        }
    }
}

/// The output of a command, written to a file line by line, is read back
/// from it as the same lines.
pub proof fn lemma_output_round_trip(raw: Seq<char>)
    ensures
        file_lines(file_text(output_lines(raw))) == output_lines(raw),
{
    lemma_output_lines_clean(raw);
    lemma_file_round_trip(output_lines(raw));
}

/// A run of `n` white space characters at the start of a text, before
/// another character or the end, is all the white space at its start.
pub proof fn lemma_lead_is(s: Seq<char>, n: nat)
    requires
        n <= s.len(),
        forall|i: int| 0 <= i < n ==> white_space(#[trigger] s[i]),
        n == s.len() || !white_space(s[n as int]),
    ensures
        lead(s) == n,
    decreases n,
{
    if n > 0 {
        let t = s.skip(1);
        assert forall|i: int| 0 <= i < n - 1 implies white_space(#[trigger] t[i]) by {
            assert(t[i] == s[i + 1]);
        }
        lemma_lead_is(t, (n - 1) as nat);
    }
}

/// A run of `n` white space characters at the end of a text, after
/// another character or the start, is all the white space at its end.
pub proof fn lemma_trail_is(s: Seq<char>, n: nat)
    requires
        n <= s.len(),
        forall|i: int| s.len() - n <= i < s.len() ==> white_space(#[trigger] s[i]),
        n == s.len() || !white_space(s[s.len() - n - 1]),
    ensures
        trail(s) == n,
    decreases n,
{
    if n > 0 {
        let t = s.drop_last();
        assert forall|i: int| t.len() - (n - 1) <= i < t.len() implies white_space(
            #[trigger] t[i],
        ) by {
            assert(t[i] == s[i]);
        }
        lemma_trail_is(t, (n - 1) as nat);
    }
}

/// The lines with `sep` between each two of them.
pub fn join_lines(lines: &Vec<String>, sep: &str) -> (r: String)
    ensures
        r@ == joined(lines_view(lines@), sep@),
{
    let mut out = String::new();
    let mut i: usize = 0;
    let ghost all = lines_view(lines@);
    while i < lines.len()
        invariant
            i <= lines.len(),
            all == lines_view(lines@),
            out@ == joined(all.take(i as int), sep@),
        decreases lines.len() - i,
    {
        let ghost before = out@;
        if i > 0 {
            out.append(sep);
        }
        out.append(lines[i].as_str());
        proof {
            assert(all.take(i + 1).drop_last() =~= all.take(i as int));
            assert(all.take(i + 1).last() == lines[i as int]@);
            if i == 0 {
                assert(before + lines[i as int]@ =~= lines[i as int]@);
                assert(all.take(1)[0] == lines[0]@);
            }
        }
        i += 1;
    }
    proof {
        assert(all.take(i as int) =~= all);
    }
    out
}

/// The pieces of `text` between the occurrences of `sep`.
pub fn split_text(text: &str, sep: char) -> (r: Vec<String>)
    ensures
        lines_view(r@) == split_at(text@, sep),
{
    let chars = chars_of(text);
    let mut done: Vec<String> = Vec::new();
    let mut cur = String::new();
    let mut i: usize = 0;
    proof {
        assert(lines_view(done@).push(cur@) =~= seq![Seq::<char>::empty()]);
    }
    while i < chars.len()
        invariant
            i <= chars.len(),
            chars@ == text@,
            split_at(text@.take(i as int), sep) == lines_view(done@).push(cur@),
        decreases chars.len() - i,
    {
        let c = chars[i];
        let ghost before_done = lines_view(done@);
        let ghost before_cur = cur@;
        proof {
            assert(text@.take(i + 1).drop_last() =~= text@.take(i as int));
            assert(text@.take(i + 1).last() == c);
            assert(before_done.push(before_cur).drop_last() =~= before_done);
        }
        if c == sep {
            proof {
                lemma_lines_view_push(done@, cur);
            }
            done.push(cur);
            cur = String::new();
        } else {
            cur.push(c);
        }
        i += 1;
    }
    proof {
        assert(text@.take(i as int) =~= text@);
        lemma_lines_view_push(done@, cur);
    }
    done.push(cur);
    done
}

/// `s` without the white space at its start and at its end.
pub fn trim_text(s: &str) -> (r: String)
    ensures
        r@ == trimmed(s@),
{
    let chars = chars_of(s);
    let n = chars.len();
    let mut i: usize = 0;
    while i < n && chars[i].is_whitespace()
        invariant
            i <= n,
            n == chars@.len(),
            forall|t: int| 0 <= t < i ==> white_space(#[trigger] chars@[t]),
        decreases n - i,
    {
        i += 1;
    }
    proof {
        lemma_lead_is(chars@, i as nat);
    }
    let mut out = String::new();
    if i == n {
        return out;
    }
    let mut j: usize = n;
    while j > i + 1 && chars[j - 1].is_whitespace()
        invariant
            i < j <= n,
            n == chars@.len(),
            !white_space(chars@[i as int]),
            forall|t: int| j <= t < n ==> white_space(#[trigger] chars@[t]),
        decreases j,
    {
        j -= 1;
    }
    proof {
        lemma_trail_is(chars@, (n - j) as nat);
    }
    let mut k: usize = i;
    while k < j
        invariant
            i <= k <= j <= n,
            n == chars@.len(),
            out@ == chars@.subrange(i as int, k as int),
        decreases j - k,
    {
        out.push(chars[k]);
        proof {
            assert(chars@.subrange(i as int, k + 1) =~= chars@.subrange(i as int, k as int).push(
                chars@[k as int],
            ));
        }
        k += 1;
    }
    out
}

/// The lines of the output of a command: the pieces between line feeds,
/// trimmed, without those that are empty then.
pub fn split_lines(buf: &str) -> (r: Vec<String>)
    ensures
        lines_view(r@) == output_lines(buf@),
{
    let pieces = split_text(buf, '\n');
    let mut out: Vec<String> = Vec::new();
    let mut i: usize = 0;
    let ghost all = lines_view(pieces@);
    proof {
        assert(lines_view(out@) =~= kept(all.take(0)));
    }
    while i < pieces.len()
        invariant
            i <= pieces.len(),
            all == lines_view(pieces@),
            lines_view(out@) == kept(all.take(i as int)),
        decreases pieces.len() - i,
    {
        let t = trim_text(pieces[i].as_str());
        proof {
            assert(all.take(i + 1).drop_last() =~= all.take(i as int));
            assert(all.take(i + 1).last() == pieces[i as int]@);
        }
        if !t.as_str().is_empty() {
            proof {
                lemma_lines_view_push(out@, t);
            }
            out.push(t);
        }
        i += 1;
    }
    proof {
        assert(all.take(i as int) =~= all);
    }
    out
}

/// The lines of a file with the content `content`.
pub fn read_lines(content: &str) -> (r: Vec<String>)
    ensures
        lines_view(r@) == file_lines(content@),
{
    let mut pieces = split_text(content, '\n');
    proof {
        lemma_split_at_len(content@, '\n');
    }
    let n = pieces.len();
    if pieces[n - 1].as_str().is_empty() {
        let ghost before = pieces@;
        pieces.pop();
        proof {
            assert(lines_view(pieces@) =~= lines_view(before).drop_last());
        }
    }
    pieces
}

/// The content of a file that holds the lines, each with a line feed after
/// it.
pub fn write_lines(lines: &Vec<String>) -> (r: String)
    ensures
        r@ == file_text(lines_view(lines@)),
{
    let mut out = String::new();
    let mut i: usize = 0;
    let ghost all = lines_view(lines@);
    while i < lines.len()
        invariant
            i <= lines.len(),
            all == lines_view(lines@),
            out@ == file_text(all.take(i as int)),
        decreases lines.len() - i,
    {
        out.append(lines[i].as_str());
        out.push('\n');
        proof {
            assert(all.take(i + 1).drop_last() =~= all.take(i as int));
            assert(all.take(i + 1).last() == lines[i as int]@);
            assert(out@ =~= file_text(all.take(i as int)) + lines[i as int]@ + seq!['\n']);
        }
        i += 1;
    }
    proof {
        assert(all.take(i as int) =~= all);
    }
    out
}

/// A copy of the lines.
pub fn clone_lines(lines: &Vec<String>) -> (r: Vec<String>)
    ensures
        lines_view(r@) == lines_view(lines@),
{
    let mut out: Vec<String> = Vec::new();
    let mut i: usize = 0;
    while i < lines.len()
        invariant
            i <= lines.len(),
            lines_view(out@) == lines_view(lines@).take(i as int),
        decreases lines.len() - i,
    {
        let s = lines[i].clone();
        proof {
            lemma_lines_view_push(out@, s);
            assert(lines_view(lines@).take(i + 1) =~= lines_view(lines@).take(i as int).push(
                lines[i as int]@,
            ));
        }
        out.push(s);
        i += 1;
    }
    proof {
        assert(lines_view(lines@).take(i as int) =~= lines_view(lines@));
    }
    out
}

} // verus!
