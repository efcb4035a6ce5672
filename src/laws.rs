use vstd::prelude::*;
use crate::decimal::{decimal, is_digit, lemma_decimal_digits, lemma_parse_decimal, parse_u32_spec};
use crate::fields::{
    lacks,
    lemma_split_join,
    lemma_split_pieces_lack,
    lemma_split_single,
    line_fields,
    split_on,
    strip_eol,
};
use crate::graph::{document, graph_line, header};
use crate::record::record_of_line;

verus! {

/// How many times `c` occurs in `s`.
pub open spec fn count_char(s: Seq<char>, c: char) -> nat
    decreases s.len(),
{
    if s.len() == 0 {
        0
    } else {
        count_char(s.drop_last(), c) + if s.last() == c {
            1nat
        } else {
            0nat
        }
    }
}

/// The output line for the record on input line `line`, with `value` as the
/// text of its value.
pub open spec fn output_line(line: Seq<char>, value: Seq<char>) -> Seq<char> {
    let r = record_of_line(line)->Ok_0;
    graph_line(r.chrom, r.start, r.end, value)
}

/// The output lines for input lines `lines` and value texts `values`.
pub open spec fn output_lines(lines: Seq<Seq<char>>, values: Seq<Seq<char>>) -> Seq<Seq<char>> {
    Seq::new(lines.len(), |i: int| output_line(lines[i], values[i]))
}

proof fn lemma_count_concat(a: Seq<char>, b: Seq<char>, c: char)
    ensures
        count_char(a + b, c) == count_char(a, c) + count_char(b, c),
    decreases b.len(),
{
    if b.len() == 0 {
        assert(a + b =~= a);
    } else {
        lemma_count_concat(a, b.drop_last(), c);
        assert((a + b).drop_last() =~= a + b.drop_last());
    }
}

proof fn lemma_count_lacks(s: Seq<char>, c: char)
    requires
        lacks(s, c),
    ensures
        count_char(s, c) == 0,
    decreases s.len(),
{
    if s.len() > 0 {
        assert(s[s.len() - 1] != c);
        assert(lacks(s.drop_last(), c));
        lemma_count_lacks(s.drop_last(), c);
    }
}

proof fn lemma_decimal_lacks(n: nat, c: char)
    requires
        !is_digit(c),
    ensures
        lacks(decimal(n), c),
{
    lemma_decimal_digits(n);
}

proof fn lemma_graph_line_newlines(chrom: Seq<char>, start: u32, end: u32, value: Seq<char>)
    requires
        lacks(chrom, '\n'),
        lacks(value, '\n'),
    ensures
        count_char(graph_line(chrom, start, end, value), '\n') == 1,
{
    let tab = seq!['\t'];
    let nl = seq!['\n'];
    let d1 = decimal(start as nat);
    let d2 = decimal(end as nat);
    lemma_decimal_lacks(start as nat, '\n');
    lemma_decimal_lacks(end as nat, '\n');
    lemma_count_lacks(chrom, '\n');
    lemma_count_lacks(value, '\n');
    lemma_count_lacks(d1, '\n');
    lemma_count_lacks(d2, '\n');
    lemma_count_lacks(tab, '\n');
    assert(count_char(nl, '\n') == 1) by {
        assert(nl.drop_last() =~= Seq::<char>::empty());
        assert(count_char(nl.drop_last(), '\n') == 0);
        assert(nl.last() == '\n');
    }
    lemma_count_concat(chrom, tab, '\n');
    lemma_count_concat(chrom + tab, d1, '\n');
    lemma_count_concat(chrom + tab + d1, tab, '\n');
    lemma_count_concat(chrom + tab + d1 + tab, d2, '\n');
    lemma_count_concat(chrom + tab + d1 + tab + d2, tab, '\n');
    lemma_count_concat(chrom + tab + d1 + tab + d2 + tab, value, '\n');
    lemma_count_concat(chrom + tab + d1 + tab + d2 + tab + value, nl, '\n');
}

proof fn lemma_document_newlines(lines: Seq<Seq<char>>)
    requires
        forall|i: int| 0 <= i < lines.len() ==> count_char(#[trigger] lines[i], '\n') == 1,
    ensures
        count_char(document(lines), '\n') == lines.len() + 1,
    decreases lines.len(),
{
    if lines.len() == 0 {
        assert(lacks(header().drop_last(), '\n'));
        lemma_count_lacks(header().drop_last(), '\n');
    } else {
        lemma_document_newlines(lines.drop_last());
        lemma_count_concat(document(lines.drop_last()), lines.last(), '\n');
    }
}

/// The chromosome of a record read from a line holds no tab, and no line
/// break where the line holds none before its terminator.
proof fn lemma_record_chrom(line: Seq<char>)
    requires
        record_of_line(line) is Ok,
    ensures
        lacks(record_of_line(line)->Ok_0.chrom, '\t'),
        lacks(strip_eol(line), '\n') ==> lacks(record_of_line(line)->Ok_0.chrom, '\n'),
{
    lemma_split_pieces_lack(strip_eol(line), '\t', '\n');
    assert(record_of_line(line)->Ok_0.chrom == line_fields(line)[0]);
}

/// One output line per input line: for well-formed input lines (each holds
/// a record and no line break before its terminator) and value texts without
/// line breaks, the output holds one line more than the input, the header.
pub proof fn lemma_one_output_line_per_input_line(lines: Seq<Seq<char>>, values: Seq<Seq<char>>)
    requires
        values.len() == lines.len(),
        forall|i: int| 0 <= i < lines.len() ==> (#[trigger] record_of_line(lines[i])) is Ok,
        forall|i: int| 0 <= i < lines.len() ==> lacks(strip_eol(#[trigger] lines[i]), '\n'),
        forall|i: int| 0 <= i < values.len() ==> lacks(#[trigger] values[i], '\n'),
    ensures
        count_char(document(output_lines(lines, values)), '\n') == lines.len() + 1,
{
    let out = output_lines(lines, values);
    assert forall|i: int| 0 <= i < out.len() implies count_char(#[trigger] out[i], '\n') == 1 by {
        lemma_record_chrom(lines[i]);
        let r = record_of_line(lines[i])->Ok_0;
        assert(lacks(values[i], '\n'));
        lemma_graph_line_newlines(r.chrom, r.start, r.end, values[i]);
    }
    lemma_document_newlines(out);
}

/// The output always starts with the header line, whatever the records,
/// none included; the header holds one line break, at its end.
pub proof fn lemma_header_first(lines: Seq<Seq<char>>)
    ensures
        document(lines).len() >= header().len(),
        document(lines).subrange(0, header().len() as int) == header(),
        header().last() == '\n',
        lacks(header().drop_last(), '\n'),
    decreases lines.len(),
{
    if lines.len() == 0 {
        assert(header().subrange(0, header().len() as int) =~= header());
    } else {
        lemma_header_first(lines.drop_last());
        let d = document(lines.drop_last());
        assert((d + lines.last()).subrange(0, header().len() as int) =~= d.subrange(
            0,
            header().len() as int,
        ));
    }
    assert(lacks(header().drop_last(), '\n'));
}

/// Coordinates pass through unchanged: the output line for a record, read
/// back as tab-separated fields, gives the chromosome, the start and end of
/// the input record exactly, and the value text.
pub proof fn lemma_coordinates_round_trip(line: Seq<char>, value: Seq<char>)
    requires
        record_of_line(line) is Ok,
        lacks(value, '\t'),
        lacks(value, '\r'),
    ensures
        ({
            let r = record_of_line(line)->Ok_0;
            let f = line_fields(output_line(line, value));
            &&& f == seq![r.chrom, decimal(r.start as nat), decimal(r.end as nat), value]
            &&& parse_u32_spec(f[1]) == Some(r.start)
            &&& parse_u32_spec(f[2]) == Some(r.end)
        }),
{
    let r = record_of_line(line)->Ok_0;
    lemma_record_chrom(line);
    let tab = seq!['\t'];
    let d1 = decimal(r.start as nat);
    let d2 = decimal(r.end as nat);
    lemma_decimal_lacks(r.start as nat, '\t');
    lemma_decimal_lacks(r.end as nat, '\t');
    lemma_decimal_digits(r.end as nat);
    let body = r.chrom + tab + d1 + tab + d2 + tab + value;
    let out = output_line(line, value);
    assert(out =~= body.push('\n'));
    assert(out.drop_last() =~= body);
    assert(body.last() != '\r') by {
        if value.len() > 0 {
            assert(value[value.len() - 1] != '\r');
        }
    }
    assert(strip_eol(out) == body);
    lemma_split_single(r.chrom, '\t');
    lemma_split_single(d1, '\t');
    lemma_split_single(d2, '\t');
    lemma_split_single(value, '\t');
    lemma_split_join(r.chrom, d1, '\t');
    lemma_split_join(r.chrom + tab + d1, d2, '\t');
    lemma_split_join(r.chrom + tab + d1 + tab + d2, value, '\t');
    assert(split_on(body, '\t') =~= seq![r.chrom, d1, d2, value]);
    lemma_parse_decimal(r.start);
    lemma_parse_decimal(r.end);
}

} // verus!
