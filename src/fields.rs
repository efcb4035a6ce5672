use vstd::prelude::*;
use vstd::string::StringExecFns;

verus! {

/// `s` without its line terminator: one trailing `\n`, then one trailing `\r`.
pub open spec fn strip_eol(s: Seq<char>) -> Seq<char> {
    let t = if s.len() > 0 && s.last() == '\n' {
        s.drop_last()
    } else {
        s
    };
    if t.len() > 0 && t.last() == '\r' {
        t.drop_last()
    } else {
        t
    }
}

/// The pieces of `s` between occurrences of `sep`, in order; there is always
/// at least one, and `k` separators give `k + 1` pieces.
pub open spec fn split_on(s: Seq<char>, sep: char) -> Seq<Seq<char>>
    decreases s.len(),
{
    if s.len() == 0 {
        seq![Seq::empty()]
    } else {
        let prev = split_on(s.drop_last(), sep);
        if s.last() == sep {
            prev.push(Seq::empty())
        } else {
            prev.update(prev.len() - 1, prev.last().push(s.last()))
        }
    }
}

pub proof fn lemma_split_on_nonempty(s: Seq<char>, sep: char)
    ensures
        split_on(s, sep).len() >= 1,
    decreases s.len(),
{
    if s.len() > 0 {
        lemma_split_on_nonempty(s.drop_last(), sep);
    }
}

/// Whether `c` does not occur in `s`.
pub open spec fn lacks(s: Seq<char>, c: char) -> bool {
    forall|i: int| 0 <= i < s.len() ==> #[trigger] s[i] != c
}

/// No piece holds the separator, nor a character that `s` lacks.
pub proof fn lemma_split_pieces_lack(s: Seq<char>, sep: char, c: char)
    ensures
        forall|k: int| 0 <= k < split_on(s, sep).len() ==> lacks(#[trigger] split_on(s, sep)[k], sep),
        lacks(s, c) ==> forall|k: int|
            0 <= k < split_on(s, sep).len() ==> lacks(#[trigger] split_on(s, sep)[k], c),
    decreases s.len(),
{
    if s.len() > 0 {
        lemma_split_pieces_lack(s.drop_last(), sep, c);
        lemma_split_on_nonempty(s.drop_last(), sep);
        let prev = split_on(s.drop_last(), sep);
        if lacks(s, c) {
            assert(lacks(s.drop_last(), c));
        }
        if s.last() != sep {
            let p = prev.last().push(s.last());
            assert(forall|j: int| 0 <= j < prev.last().len() ==> p[j] == prev.last()[j]);
            assert(p[p.len() - 1] == s.last());
        }
    }
}

/// A string without the separator is one piece.
pub proof fn lemma_split_single(s: Seq<char>, sep: char)
    requires
        lacks(s, sep),
    ensures
        split_on(s, sep) == seq![s],
    decreases s.len(),
{
    if s.len() > 0 {
        assert(s[s.len() - 1] != sep);
        assert(lacks(s.drop_last(), sep));
        lemma_split_single(s.drop_last(), sep);
        assert(s.drop_last().push(s.last()) =~= s);
        assert(split_on(s, sep) =~= seq![s]);
    } else {
        assert(s =~= Seq::<char>::empty());
    }
}

/// Splitting at a separator splits each side on its own.
pub proof fn lemma_split_join(a: Seq<char>, b: Seq<char>, sep: char)
    ensures
        split_on(a + seq![sep] + b, sep) == split_on(a, sep) + split_on(b, sep),
    decreases b.len(),
{
    let x = a + seq![sep] + b;
    lemma_split_on_nonempty(a, sep);
    if b.len() == 0 {
        assert(x.drop_last() =~= a);
        assert(split_on(x, sep) =~= split_on(a, sep) + split_on(b, sep));
    } else {
        lemma_split_join(a, b.drop_last(), sep);
        lemma_split_on_nonempty(b.drop_last(), sep);
        assert(x.drop_last() =~= a + seq![sep] + b.drop_last());
        assert(x.last() == b.last());
        assert(split_on(x, sep) =~= split_on(a, sep) + split_on(b, sep));
    }
}

/// The characters of `s`, one by one, each read by its position.
pub fn chars_of(s: &str) -> (r: Vec<char>)
    ensures
        r@ == s@,
{
    let n = s.unicode_len();
    let mut r: Vec<char> = Vec::new();
    while r.len() < n
        invariant
            r.len() <= n,
            n == s@.len(),
            r@ == s@.subrange(0, r.len() as int),
        decreases n - r.len(),
    {
        let c = s.get_char(r.len());
        r.push(c);
        assert(r@ =~= s@.subrange(0, r.len() as int));
    }
    assert(r@ =~= s@);
    r
}

/// The views of a sequence of strings.
pub open spec fn views(v: Seq<String>) -> Seq<Seq<char>> {
    v.map_values(|f: String| f@)
}

/// The tab-separated fields of `line`, after its line terminator is removed.
pub open spec fn line_fields(line: Seq<char>) -> Seq<Seq<char>> {
    split_on(strip_eol(line), '\t')
}

/// Splits `line` into its tab-separated fields, after removing its line
/// terminator.
pub fn split_line(line: &str) -> (r: Vec<String>)
    ensures
        views(r@) == line_fields(line@),
        r@.len() >= 1,
{
    let cs = chars_of(line);
    let mut end: usize = cs.len();
    if end > 0 && cs[end - 1] == '\n' {
        end = end - 1;
    }
    if end > 0 && cs[end - 1] == '\r' {
        end = end - 1;
    }
    let ghost t = strip_eol(line@);
    assert(t =~= line@.subrange(0, end as int));
    let mut fields: Vec<String> = Vec::new();
    let mut start: usize = 0;
    let mut i: usize = 0;
    assert(views(fields@) =~= Seq::<Seq<char>>::empty());
    assert(t.subrange(0, 0) =~= Seq::<char>::empty());
    assert(views(fields@).push(t.subrange(0, 0)) =~= split_on(t.subrange(0, 0), '\t'));
    while i < end
        invariant
            start <= i <= end,
            end <= cs@.len(),
            cs@ == line@,
            t == line@.subrange(0, end as int),
            views(fields@).push(t.subrange(start as int, i as int)) == split_on(
                t.subrange(0, i as int),
                '\t',
            ),
        decreases end - i,
    {
        let c = cs[i];
        let ghost prev = split_on(t.subrange(0, i as int), '\t');
        assert(t.subrange(0, i + 1).drop_last() =~= t.subrange(0, i as int));
        assert(t.subrange(0, i + 1).last() == c);
        if c == '\t' {
            let piece = line.substring_char(start, i);
            assert(piece@ =~= t.subrange(start as int, i as int));
            fields.push(String::from_str(piece));
            start = i + 1;
            assert(views(fields@) =~= prev);
            assert(t.subrange(start as int, i + 1) =~= Seq::<char>::empty());
            assert(views(fields@).push(t.subrange(start as int, i + 1)) =~= split_on(
                t.subrange(0, i + 1),
                '\t',
            ));
        } else {
            assert(t.subrange(start as int, i + 1) =~= t.subrange(start as int, i as int).push(c));
            assert(views(fields@).push(t.subrange(start as int, i + 1)) =~= prev.update(
                prev.len() - 1,
                prev.last().push(c),
            ));
            assert(views(fields@).push(t.subrange(start as int, i + 1)) =~= split_on(
                t.subrange(0, i + 1),
                '\t',
            ));
        }
        i = i + 1;
    }
    let piece = line.substring_char(start, end);
    assert(piece@ =~= t.subrange(start as int, end as int));
    fields.push(String::from_str(piece));
    assert(t.subrange(0, end as int) =~= t);
    assert(views(fields@) =~= line_fields(line@));
    fields
}

} // verus!
