//! Word wrap based on graphemes, useful for debugging outputs of long
//! text: each line is wrapped at a margin, breaking at the rightmost
//! space inside a bounded window, or hard at the margin when a word is
//! longer than the window.

use vstd::prelude::*;
use vstd::slice::slice_index_get;
use vstd::slice::slice_subrange;
use vstd::string::*;
use unicode_segmentation::UnicodeSegmentation;

verus! {

/// The views of a sequence of borrowed string slices.
pub open spec fn strs_view(s: Seq<&str>) -> Seq<Seq<char>> {
    s.map_values(|g: &str| g@)
}

/// What unicode-segmentation's split into extended grapheme clusters
/// yields on a piece of text: a function of the characters alone.
pub uninterp spec fn graphemes(s: Seq<char>) -> Seq<Seq<char>>;

/// Relies on unicode-segmentation's `UnicodeSegmentation::graphemes`
/// (extended grapheme clusters): a deterministic function of the text,
/// yielding consecutive substrings whose concatenation is the line.
#[verifier::external_body]
fn graphemes_of<'a>(line: &'a str) -> (r: Vec<&'a str>)
    ensures
        strs_view(r@) == graphemes(line@),
        concat_strs(strs_view(r@)) == line@,
{
    UnicodeSegmentation::graphemes(line, true).collect()
}

/// The index of the first line feed in `s`, or `s.len()` if none.
pub open spec fn first_nl(s: Seq<char>) -> nat
    decreases s.len(),
{
    if s.len() == 0 {
        0
    } else if s[0] == '\n' {
        0
    } else {
        (1 + first_nl(s.drop_first())) as nat
    }
}

/// A line with a final carriage return removed, as it is before a line
/// feed that ended the line.
pub open spec fn strip_cr(l: Seq<char>) -> Seq<char> {
    if l.len() > 0 && l.last() == '\r' {
        l.drop_last()
    } else {
        l
    }
}

/// The lines of a text as `str::lines` splits them: split at each line
/// feed, dropping a carriage return right before it; text after the last
/// line feed is the final line, and none follows a final line feed.
pub open spec fn lines_spec(s: Seq<char>) -> Seq<Seq<char>>
    decreases s.len(),
{
    if s.len() == 0 {
        Seq::empty()
    } else {
        let k = first_nl(s) as int;
        if k >= s.len() {
            seq![s]
        } else {
            seq![strip_cr(s.take(k))] + lines_spec(s.skip(k + 1))
        }
    }
}

/// The lines of `s`: split at each line feed, a carriage return right
/// before one stripped, text after the last line feed the final line,
/// none after a final line feed.
fn split_lines<'a>(s: &'a str) -> (r: Vec<&'a str>)
    ensures
        strs_view(r@) == lines_spec(s@),
{
    let n = s.unicode_len();
    let mut out: Vec<&str> = Vec::new();
    let mut pos: usize = 0;
    proof {
        assert(s@.skip(0) =~= s@);
        assert(strs_view(Seq::<&str>::empty()) =~= Seq::<Seq<char>>::empty());
        assert(Seq::<Seq<char>>::empty() + lines_spec(s@) =~= lines_spec(s@));
    }
    while pos < n
        invariant
            n == s@.len(),
            0 <= pos <= n,
            lines_spec(s@) == strs_view(out@) + lines_spec(s@.skip(pos as int)),
        decreases n - pos,
    {
        let ghost rest = s@.skip(pos as int);
        let ghost before = out@;
        let mut i: usize = pos;
        while i < n && s.get_char(i) != '\n'
            invariant
                n == s@.len(),
                pos <= i <= n,
                rest == s@.skip(pos as int),
                first_nl(rest) == (i - pos) + first_nl(s@.skip(i as int)),
                forall|j: int| pos <= j < i ==> s@[j] != '\n',
            decreases n - i,
        {
            proof {
                assert(s@.skip(i as int)[0] == s@[i as int]);
                assert(s@.skip(i as int).drop_first() =~= s@.skip(i + 1));
            }
            i = i + 1;
        }
        let ghost k = first_nl(rest) as int;
        if i == n {
            proof {
                assert(s@.skip(n as int).len() == 0);
                assert(k >= rest.len());
            }
            let piece = s.substring_char(pos, n);
            out.push(piece);
            proof {
                assert(piece@ =~= rest);
                assert(lines_spec(rest) == seq![rest]);
                assert(strs_view(before.push(piece)) =~= strs_view(before) + seq![rest]);
                assert(lines_spec(s@.skip(n as int)) =~= Seq::<Seq<char>>::empty());
                assert((strs_view(before) + seq![rest]) + Seq::<Seq<char>>::empty() =~= strs_view(
                    before,
                ) + (seq![rest] + Seq::<Seq<char>>::empty()));
                assert(seq![rest] + Seq::<Seq<char>>::empty() =~= seq![rest]);
            }
            pos = n;
        } else {
            proof {
                assert(s@[i as int] == '\n');
                assert(first_nl(s@.skip(i as int)) == 0);
                assert(k == i - pos);
                assert(rest.take(k) =~= s@.subrange(pos as int, i as int));
            }
            let end = if i > pos && s.get_char(i - 1) == '\r' {
                i - 1
            } else {
                i
            };
            let piece = s.substring_char(pos, end);
            proof {
                if i > pos && s@[i - 1] == '\r' {
                    assert(rest.take(k).last() == s@[i - 1]);
                    assert(piece@ =~= rest.take(k).drop_last());
                } else {
                    if k > 0 {
                        assert(rest.take(k).last() == s@[i - 1]);
                    }
                    assert(piece@ =~= rest.take(k));
                }
                assert(piece@ == strip_cr(rest.take(k)));
            }
            out.push(piece);
            proof {
                let ln = strip_cr(rest.take(k));
                assert(lines_spec(rest) == seq![ln] + lines_spec(rest.skip(k + 1)));
                assert(rest.skip(k + 1) =~= s@.skip(i + 1));
                assert(strs_view(before.push(piece)) =~= strs_view(before) + seq![ln]);
                assert(strs_view(before) + (seq![ln] + lines_spec(s@.skip(i + 1))) =~= (strs_view(
                    before,
                ) + seq![ln]) + lines_spec(s@.skip(i + 1)));
            }
            pos = i + 1;
        }
    }
    proof {
        assert(s@.skip(n as int).len() == 0);
        assert(lines_spec(s@.skip(n as int)) =~= Seq::<Seq<char>>::empty());
        assert(strs_view(out@) + Seq::<Seq<char>>::empty() =~= strs_view(out@));
    }
    out
}

/// Whether two string slices hold the same characters.
pub fn str_eq(a: &str, b: &str) -> (r: bool)
    ensures
        r == (a@ == b@),
{
    let alen = a.unicode_len();
    let blen = b.unicode_len();
    if alen != blen {
        return false;
    }
    let mut i: usize = 0;
    while i < alen
        invariant
            alen == a@.len(),
            blen == b@.len(),
            alen == blen,
            0 <= i <= alen,
            forall|j: int| 0 <= j < i ==> a@[j] == b@[j],
        decreases alen - i,
    {
        if a.get_char(i) != b.get_char(i) {
            return false;
        }
        i = i + 1;
    }
    proof {
        assert(a@ =~= b@);
    }
    true
}

/// The rightmost index at which `key` stands in `s`, if any.
pub open spec fn last_match(s: Seq<Seq<char>>, key: Seq<char>) -> Option<int>
    decreases s.len(),
{
    if s.len() == 0 {
        None
    } else if s.last() == key {
        Some(s.len() - 1)
    } else {
        last_match(s.drop_last(), key)
    }
}

/// A found rightmost match lies in bounds, equals the key, and nothing
/// to its right does; no match means the key is nowhere in `s`.
pub proof fn lemma_last_match_bounds(s: Seq<Seq<char>>, key: Seq<char>)
    ensures
        match last_match(s, key) {
            Some(i) => 0 <= i < s.len() && s[i] == key && (forall|j: int|
                i < j < s.len() ==> s[j] != key),
            None => forall|j: int| 0 <= j < s.len() ==> s[j] != key,
        },
    decreases s.len(),
{
    if s.len() > 0 && !(s.last() == key) {
        lemma_last_match_bounds(s.drop_last(), key);
        assert(forall|j: int| 0 <= j < s.len() - 1 ==> s[j] == s.drop_last()[j]);
    }
}

/// rfind for an array of graphemes: the rightmost index holding `key`.
pub fn rfind(s: &[&str], key: &str) -> (r: Option<usize>)
    ensures
        match r {
            Some(i) => last_match(strs_view(s@), key@) == Some(i as int),
            None => last_match(strs_view(s@), key@) is None,
        },
{
    let ghost gs = strs_view(s@);
    let n = s.len();
    let mut i: usize = n;
    proof {
        assert(gs.take(n as int) =~= gs);
    }
    while i > 0
        invariant
            n == s@.len(),
            0 <= i <= n,
            gs == strs_view(s@),
            last_match(gs, key@) == last_match(gs.take(i as int), key@),
        decreases i,
    {
        i = i - 1;
        if str_eq(*slice_index_get(s, i), key) {
            proof {
                assert(gs.take(i + 1).last() == gs[i as int]);
            }
            return Some(i);
        }
        proof {
            assert(gs.take(i + 1).last() == gs[i as int]);
            assert(gs.take(i + 1).drop_last() =~= gs.take(i as int));
        }
    }
    proof {
        assert(gs.take(0) =~= Seq::<Seq<char>>::empty());
    }
    None
}

/// The concatenation of a sequence of graphemes.
pub open spec fn concat_strs(gs: Seq<Seq<char>>) -> Seq<char>
    decreases gs.len(),
{
    if gs.len() == 0 {
        Seq::empty()
    } else {
        concat_strs(gs.drop_last()) + gs.last()
    }
}

/// One line of graphemes, wrapped: while more than `maxline` graphemes
/// remain, break at the rightmost space in the window of the `maxword`
/// graphemes before the margin, or hard at the margin when the window has
/// no space; a line feed replaces the space at each break.
pub open spec fn wrapped_line(gs: Seq<Seq<char>>, maxline: int, maxword: int) -> Seq<char>
    decreases gs.len(),
    via wrapped_line_decreases
{
    if gs.len() <= maxline || maxline < 1 || maxword < 0 || maxword >= maxline {
        concat_strs(gs)
    } else {
        match last_match(gs.subrange(maxline - maxword, maxline), " "@) {
            None => concat_strs(gs.take(maxline)) + seq!['\n'] + wrapped_line(
                gs.skip(maxline),
                maxline,
                maxword,
            ),
            Some(ix) => {
                let cut = ix + maxline - maxword;
                concat_strs(gs.take(cut)) + seq!['\n'] + wrapped_line(
                    gs.skip(cut + 1),
                    maxline,
                    maxword,
                )
            },
        }
    }
}

#[via_fn]
proof fn wrapped_line_decreases(gs: Seq<Seq<char>>, maxline: int, maxword: int) {
    if !(gs.len() <= maxline || maxline < 1 || maxword < 0 || maxword >= maxline) {
        lemma_last_match_bounds(gs.subrange(maxline - maxword, maxline), " "@);
    }
}

/// Appends the graphemes `line[from..to]` onto `s`.
fn append_graphemes(line: &[&str], from: usize, to: usize, s: &mut String)
    requires
        from <= to <= line@.len(),
    ensures
        final(s)@ == old(s)@ + concat_strs(strs_view(line@).subrange(from as int, to as int)),
{
    let ghost gs = strs_view(line@);
    proof {
        assert(gs.subrange(from as int, from as int) =~= Seq::<Seq<char>>::empty());
        assert(old(s)@ + Seq::<char>::empty() =~= old(s)@);
    }
    let mut j = from;
    while j < to
        invariant
            from <= j <= to <= line@.len(),
            gs == strs_view(line@),
            s@ == old(s)@ + concat_strs(gs.subrange(from as int, j as int)),
        decreases to - j,
    {
        s.append(*slice_index_get(line, j));
        proof {
            assert(gs.subrange(from as int, j + 1).drop_last() =~= gs.subrange(
                from as int,
                j as int,
            ));
            assert(gs.subrange(from as int, j + 1).last() == line@[j as int]@);
            assert((old(s)@ + concat_strs(gs.subrange(from as int, j as int))) + line@[j as int]@
                =~= old(s)@ + (concat_strs(gs.subrange(from as int, j as int))
                + line@[j as int]@));
        }
        j = j + 1;
    }
}

/// Word wrap for one line of graphemes: breaks at the rightmost space in
/// the window of `maxword` graphemes before each margin of `maxline`
/// graphemes, or hard at the margin when a word fills the whole window.
pub fn wordwrapline(line: &[&str], maxline: usize, maxword: usize) -> (r: String)
    requires
        maxword < maxline,
    ensures
        r@ == wrapped_line(strs_view(line@), maxline as int, maxword as int),
{
    let ghost gs = strs_view(line@);
    let mut sline = String::new();
    let mut start: usize = 0;
    proof {
        assert(gs.skip(0) =~= gs);
        assert(Seq::<char>::empty() + wrapped_line(gs, maxline as int, maxword as int)
            =~= wrapped_line(gs, maxline as int, maxword as int));
    }
    let n = line.len();
    let ghost ml = maxline as int;
    let ghost mw = maxword as int;
    while n - start > maxline
        invariant
            n == line@.len(),
            0 <= start <= n,
            maxword < maxline,
            ml == maxline as int,
            mw == maxword as int,
            gs == strs_view(line@),
            wrapped_line(gs, ml, mw) == sline@ + wrapped_line(gs.skip(start as int), ml, mw),
        decreases n - start,
    {
        let ghost rest = gs.skip(start as int);
        let ghost before = sline@;
        let win = slice_subrange(line, start + maxline - maxword, start + maxline);
        proof {
            assert(strs_view(win@) =~= rest.subrange(ml - mw, ml));
            lemma_last_match_bounds(rest.subrange(ml - mw, ml), " "@);
            reveal_strlit("\n");
        }
        let ix = rfind(win, " ");
        match ix {
            None => {
                append_graphemes(line, start, start + maxline, &mut sline);
                sline.append("\n");
                proof {
                    let a = concat_strs(rest.take(ml));
                    let w = wrapped_line(rest.skip(ml), ml, mw);
                    assert(rest.take(ml) =~= gs.subrange(start as int, start as int + ml));
                    assert("\n"@ =~= seq!['\n']);
                    assert(sline@ == (before + a) + seq!['\n']);
                    assert(rest.skip(ml) =~= gs.skip(start as int + ml));
                    assert(wrapped_line(rest, ml, mw) == (a + seq!['\n']) + w);
                    assert(before + ((a + seq!['\n']) + w) =~= ((before + a) + seq!['\n']) + w);
                }
                start = start + maxline;
            },
            Some(i) => {
                let cut = maxline - maxword + i;
                append_graphemes(line, start, start + cut, &mut sline);
                sline.append("\n");
                proof {
                    let a = concat_strs(rest.take(cut as int));
                    let w = wrapped_line(rest.skip(cut as int + 1), ml, mw);
                    assert(rest.take(cut as int) =~= gs.subrange(
                        start as int,
                        start as int + cut as int,
                    ));
                    assert("\n"@ =~= seq!['\n']);
                    assert(sline@ == (before + a) + seq!['\n']);
                    assert(rest.skip(cut as int + 1) =~= gs.skip(start as int + cut as int + 1));
                    assert(wrapped_line(rest, ml, mw) == (a + seq!['\n']) + w);
                    assert(before + ((a + seq!['\n']) + w) =~= ((before + a) + seq!['\n']) + w);
                }
                start = start + cut + 1;
            },
        }
    }
    proof {
        assert(gs.skip(start as int) =~= gs.subrange(start as int, n as int));
    }
    append_graphemes(line, start, n, &mut sline);
    sline
}

/// The wrapped lines of a text, joined with line feeds: each line is
/// split into graphemes and wrapped on its own.
pub open spec fn wrapped_text(ls: Seq<Seq<char>>, maxline: int, maxword: int) -> Seq<char>
    decreases ls.len(),
{
    if ls.len() == 0 {
        Seq::empty()
    } else if ls.len() == 1 {
        wrapped_line(graphemes(ls[0]), maxline, maxword)
    } else {
        (wrapped_text(ls.drop_last(), maxline, maxword) + seq!['\n']) + wrapped_line(
            graphemes(ls.last()),
            maxline,
            maxword,
        )
    }
}

/// Word wrap that understands graphemes: each line of `s` is wrapped at a
/// margin of `maxline` graphemes, breaking at a space within the last
/// `maxword` of them, and the wrapped lines are joined with line feeds.
pub fn wordwrap(s: &str, maxline: usize, maxword: usize) -> (r: String)
    requires
        maxword < maxline,
    ensures
        r@ == wrapped_text(lines_spec(s@), maxline as int, maxword as int),
{
    let ghost ml = maxline as int;
    let ghost mw = maxword as int;
    let ghost lsv = lines_spec(s@);
    let lines = split_lines(s);
    let mut out = String::new();
    let n = lines.len();
    let mut j: usize = 0;
    proof {
        assert(lsv.take(0) =~= Seq::<Seq<char>>::empty());
    }
    while j < n
        invariant
            n == lines@.len(),
            0 <= j <= n,
            lsv == lines_spec(s@),
            strs_view(lines@) == lsv,
            maxword < maxline,
            ml == maxline as int,
            mw == maxword as int,
            out@ == wrapped_text(lsv.take(j as int), ml, mw),
        decreases n - j,
    {
        let ghost before = out@;
        if j > 0 {
            out.append("\n");
        }
        let gl = graphemes_of(lines[j]);
        let wrapped = wordwrapline(gl.as_slice(), maxline, maxword);
        out.append(wrapped.as_str());
        proof {
            reveal_strlit("\n");
            assert(lsv.take(j + 1).drop_last() =~= lsv.take(j as int));
            assert(lsv.take(j + 1).last() == lsv[j as int]);
            assert(lines@[j as int]@ == lsv[j as int]);
            assert(wrapped@ == wrapped_line(graphemes(lsv[j as int]), ml, mw));
            if j == 0 {
                assert(lsv.take(1).len() == 1);
                assert(lsv.take(1)[0] == lsv[0]);
                assert(out@ == (before + wrapped@));
                assert(Seq::<char>::empty() + wrapped@ =~= wrapped@);
            } else {
                assert(lsv.take(j + 1).len() >= 2);
                assert("\n"@ =~= seq!['\n']);
                assert(out@ == (before + seq!['\n']) + wrapped@);
            }
        }
        j = j + 1;
    }
    proof {
        assert(lsv.take(n as int) =~= lsv);
    }
    out
}

} // verus!
