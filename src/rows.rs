//! Splitting a sheet's text into rows of cell texts: one row per line, cells
//! separated by `|`.
use crate::tokenizer::char_text;
use vstd::prelude::*;
use vstd::string::*;

verus! {

/// The pieces of `s` between occurrences of `sep`; there is always one more
/// piece than there are separators.
pub open spec fn split_at_char(s: Seq<char>, sep: char) -> Seq<Seq<char>>
    decreases s.len(),
{
    if s.len() == 0 {
        seq![Seq::empty()]
    } else {
        let p = split_at_char(s.drop_last(), sep);
        if s.last() == sep {
            p.push(Seq::empty())
        } else {
            p.update(p.len() - 1, p.last().push(s.last()))
        }
    }
}

pub proof fn lemma_split_nonempty(s: Seq<char>, sep: char)
    ensures
        split_at_char(s, sep).len() >= 1,
    decreases s.len(),
{
    if s.len() > 0 {
        lemma_split_nonempty(s.drop_last(), sep);
    }
}

/// A line without the carriage return of a `\r\n` ending.
pub open spec fn strip_cr(l: Seq<char>) -> Seq<char> {
    if l.len() > 0 && l.last() == '\r' {
        l.drop_last()
    } else {
        l
    }
}

/// The lines of a text, as `str::lines` gives them: split at `\n`, with the
/// `\r` of a `\r\n` ending dropped, and no empty line after a final line
/// ending.
pub open spec fn text_lines(s: Seq<char>) -> Seq<Seq<char>> {
    let ps = split_at_char(s, '\n');
    let kept = if ps.last().len() == 0 {
        ps.drop_last()
    } else {
        ps
    };
    Seq::new(kept.len(), |i: int| if i < ps.len() - 1 { strip_cr(kept[i]) } else { kept[i] })
}

/// The rows of a sheet's text: its lines, each split at `|`.
pub open spec fn sheet_rows(s: Seq<char>) -> Seq<Seq<Seq<char>>> {
    Seq::new(text_lines(s).len(), |i: int| split_at_char(text_lines(s)[i], '|'))
}

pub open spec fn char_pieces(v: Seq<Vec<char>>) -> Seq<Seq<char>> {
    Seq::new(v.len(), |i: int| v[i]@)
}

/// Relies on `str::chars`: the characters of the text, in order.
#[verifier::external_body]
fn chars_of(s: &str) -> (r: Vec<char>)
    ensures
        r@ == s@,
{
    s.chars().collect()
}

fn split_chars(s: &Vec<char>, sep: char) -> (r: Vec<Vec<char>>)
    ensures
        char_pieces(r@) == split_at_char(s@, sep),
{
    let mut out: Vec<Vec<char>> = Vec::new();
    out.push(Vec::new());
    let mut i: usize = 0;
    proof {
        assert(s@.subrange(0, 0) =~= Seq::<char>::empty());
        assert(char_pieces(out@) =~= seq![Seq::<char>::empty()]);
    }
    while i < s.len()
        invariant
            i <= s@.len(),
            out@.len() >= 1,
            char_pieces(out@) == split_at_char(s@.subrange(0, i as int), sep),
        decreases s@.len() - i,
    {
        let c = s[i];
        let ghost before = char_pieces(out@);
        let ghost prefix = s@.subrange(0, i + 1);
        proof {
            assert(prefix.drop_last() =~= s@.subrange(0, i as int));
            assert(prefix.last() == c);
        }
        if c == sep {
            out.push(Vec::new());
            proof {
                assert(char_pieces(out@) =~= before.push(Seq::empty()));
            }
        } else {
            let last = out.len() - 1;
            let mut piece = Vec::new();
            out.set_and_swap(last, &mut piece);
            piece.push(c);
            out.set_and_swap(last, &mut piece);
            proof {
                assert(char_pieces(out@) =~= before.update(before.len() - 1, before.last().push(c)));
            }
        }
        i += 1;
    }
    proof {
        assert(s@.subrange(0, s@.len() as int) =~= s@);
    }
    out
}

fn string_of(v: &Vec<char>) -> (r: String)
    ensures
        r@ == v@,
{
    let mut r = String::new();
    let mut i: usize = 0;
    while i < v.len()
        invariant
            i <= v@.len(),
            r@ == v@.subrange(0, i as int),
        decreases v@.len() - i,
    {
        let c = char_text(v[i]);
        r.append(c.as_str());
        assert(r@ =~= v@.subrange(0, i + 1));
        i += 1;
    }
    assert(r@ =~= v@);
    r
}

/// The rows of cell texts that a sheet's text holds: one row per line, cells
/// separated by `|`.
pub fn split_rows(source: &str) -> (r: Vec<Vec<String>>)
    ensures
        crate::table::texts(r@) == sheet_rows(source@),
{
    let chars = chars_of(source);
    let pieces = split_chars(&chars, '\n');
    let ghost ps = split_at_char(source@, '\n');
    proof {
        lemma_split_nonempty(source@, '\n');
    }
    let n = pieces.len();
    let kept = if pieces[n - 1].len() == 0 {
        n - 1
    } else {
        n
    };
    let ghost lines = text_lines(source@);
    proof {
        assert(pieces@[n - 1]@ == ps.last());
        assert(lines.len() == kept);
    }
    let mut out: Vec<Vec<String>> = Vec::new();
    let mut i: usize = 0;
    while i < kept
        invariant
            i <= kept,
            kept <= n,
            n == pieces@.len(),
            char_pieces(pieces@) == ps,
            ps == split_at_char(source@, '\n'),
            lines == text_lines(source@),
            lines.len() == kept,
            out@.len() == i,
            forall|j: int| 0 <= j < i ==> crate::table::texts(out@)[j] == sheet_rows(source@)[j],
        decreases kept - i,
    {
        let piece = &pieces[i];
        let mut line: Vec<char> = Vec::new();
        let mut len = piece.len();
        if i < n - 1 && len > 0 && piece[len - 1] == '\r' {
            len = len - 1;
        }
        let mut k: usize = 0;
        while k < len
            invariant
                k <= len,
                len <= piece@.len(),
                line@ == piece@.subrange(0, k as int),
            decreases len - k,
        {
            line.push(piece[k]);
            k += 1;
        }
        proof {
            assert(piece@ == ps[i as int]);
            assert(line@ =~= lines[i as int]);
        }
        let cells = split_chars(&line, '|');
        let mut row: Vec<String> = Vec::new();
        let mut j: usize = 0;
        while j < cells.len()
            invariant
                j <= cells@.len(),
                row@.len() == j,
                forall|m: int| 0 <= m < j ==> (#[trigger] row@[m])@ == cells@[m]@,
            decreases cells@.len() - j,
        {
            row.push(string_of(&cells[j]));
            j += 1;
        }
        let ghost before = out@;
        out.push(row);
        proof {
            assert forall|j: int| 0 <= j < i + 1 implies crate::table::texts(out@)[j] == sheet_rows(source@)[j] by {
                if j < i {
                    assert(crate::table::texts(out@)[j] == crate::table::texts(before)[j]);
                } else {
                    assert(crate::table::texts(out@)[j] =~= split_at_char(lines[j], '|'));
                }
            }
        }
        i += 1;
    }
    proof {
        assert(crate::table::texts(out@) =~= sheet_rows(source@));
    }
    out
}

} // verus!
