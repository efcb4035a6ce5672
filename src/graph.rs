use vstd::prelude::*;
use vstd::string::StringExecFns;
use crate::decimal::{decimal, push_decimal};

verus! {

/// One output line: an interval and the text of its value.
#[derive(Debug)]
pub struct BedGraphRecord {
    pub chrom: String,
    pub start: u32,
    pub end: u32,
    pub value: String,
}

/// The line that starts every bedGraph output.
pub open spec fn header() -> Seq<char> {
    seq![
        't', 'r', 'a', 'c', 'k', ' ', 't', 'y', 'p', 'e', '=', 'b', 'e', 'd', 'G', 'r', 'a', 'p',
        'h', '\n',
    ]
}

/// The output line for an interval and the text of its value.
pub open spec fn graph_line(chrom: Seq<char>, start: u32, end: u32, value: Seq<char>) -> Seq<
    char,
> {
    chrom + seq!['\t'] + decimal(start as nat) + seq!['\t'] + decimal(end as nat) + seq!['\t']
        + value + seq!['\n']
}

/// The output line for `r`.
pub open spec fn record_line(r: &BedGraphRecord) -> Seq<char> {
    graph_line(r.chrom@, r.start, r.end, r.value@)
}

/// The whole output for `lines`, given as the output line of each record.
pub open spec fn document(lines: Seq<Seq<char>>) -> Seq<char>
    decreases lines.len(),
{
    if lines.len() == 0 {
        header()
    } else {
        document(lines.drop_last()) + lines.last()
    }
}

/// Builds bedGraph text: the header, then one line per record written. The
/// text is held until the caller takes it.
pub struct BedGraphWriter {
    out: String,
}

impl View for BedGraphWriter {
    type V = Seq<char>;

    /// The text built and not yet taken.
    closed spec fn view(&self) -> Seq<char> {
        self.out@
    }
}

impl BedGraphWriter {
    /// A writer whose text holds the header line.
    pub fn new() -> (r: BedGraphWriter)
        ensures
            r@ == header(),
    {
        let out = String::from_str("track type=bedGraph\n");
        proof {
            reveal_strlit("track type=bedGraph\n");
        }
        assert(out@ =~= header());
        BedGraphWriter { out }
    }

    /// Appends the line for `record`.
    pub fn write(&mut self, record: &BedGraphRecord)
        ensures
            final(self)@ == old(self)@ + record_line(record),
    {
        let ghost before = self.out@;
        self.out.append(record.chrom.as_str());
        self.out.append("\t");
        proof {
            reveal_strlit("\t");
        }
        push_decimal(&mut self.out, record.start);
        self.out.append("\t");
        push_decimal(&mut self.out, record.end);
        self.out.append("\t");
        self.out.append(record.value.as_str());
        self.out.append("\n");
        proof {
            reveal_strlit("\n");
        }
        assert(self.out@ =~= before + record_line(record));
    }

    /// Hands over the text built so far and starts afresh with none.
    pub fn take_output(&mut self) -> (r: String)
        ensures
            r@ == old(self)@,
            final(self)@ == Seq::<char>::empty(),
    {
        let r = self.out.clone();
        self.out = String::new();
        r
    }
}

} // verus!
