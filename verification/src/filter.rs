//! The output channel filter: a two-state machine fed one line at a time,
//! retaining only the payload between the start and end sentinel lines, or
//! every line in raw mode.

use vstd::prelude::*;
use crate::strutil::has_prefix;
use crate::strutil::is_prefix;

verus! {

/// What one line does to the filter: the state after the line, and the text
/// the line contributes to the output. A start-marker line turns capture on,
/// an end-marker line turns it off, and neither is captured itself; any
/// other line is captured, with a terminating newline, exactly while capture
/// is on.
pub open spec fn spec_filter_step(inside: bool, line: Seq<char>) -> (bool, Seq<char>) {
    if is_prefix("__xmakers_start__"@, line) {
        (true, Seq::<char>::empty())
    } else if is_prefix("__xmakers_end__"@, line) {
        (false, Seq::<char>::empty())
    } else if inside {
        (inside, line + seq!['\n'])
    } else {
        (inside, Seq::<char>::empty())
    }
}

/// Run the filter over `lines` starting from `inside`: the final state and
/// the concatenated retained text.
pub open spec fn spec_filtered_from(lines: Seq<Seq<char>>, inside: bool) -> (bool, Seq<char>)
    decreases lines.len(),
{
    if lines.len() == 0 {
        (inside, Seq::<char>::empty())
    } else {
        let (st, txt) = spec_filter_step(inside, lines[0]);
        let (fin, rest) = spec_filtered_from(lines.drop_first(), st);
        (fin, txt + rest)
    }
}

/// Every line verbatim, each followed by a newline.
pub open spec fn spec_raw_text(lines: Seq<Seq<char>>) -> Seq<char>
    decreases lines.len(),
{
    if lines.len() == 0 {
        Seq::<char>::empty()
    } else {
        lines[0] + seq!['\n'] + spec_raw_text(lines.drop_first())
    }
}

/// What the filter retains of `lines`: everything in raw mode, the payload
/// between the markers otherwise.
pub open spec fn spec_filter_output(lines: Seq<Seq<char>>, raw: bool) -> Seq<char> {
    if raw {
        spec_raw_text(lines)
    } else {
        spec_filtered_from(lines, false).1
    }
}

/// Isolates the machine-readable payload of a process's output stream,
/// consuming it one line at a time; restartable by constructing a new value
/// per invocation.
pub struct OutputFilter {
    raw: bool,
    inside: bool,
    out: String,
}

impl OutputFilter {
    /// Raw mode retains every line.
    pub closed spec fn spec_raw(&self) -> bool {
        self.raw
    }

    /// Whether the filter is between the start and end markers.
    pub closed spec fn spec_inside(&self) -> bool {
        self.inside
    }

    /// The text retained so far.
    pub closed spec fn spec_out(&self) -> Seq<char> {
        self.out@
    }

    /// A fresh filter, outside the payload, with nothing retained.
    pub fn new(raw: bool) -> (r: OutputFilter)
        ensures
            r.spec_raw() == raw,
            !r.spec_inside(),
            r.spec_out() == Seq::<char>::empty(),
    {
        OutputFilter { raw, inside: false, out: String::new() }
    }

    /// Consume one line of process output.
    pub fn feed_line(&mut self, line: &str)
        ensures
            final(self).spec_raw() == old(self).spec_raw(),
            old(self).spec_raw() ==> final(self).spec_inside() == old(self).spec_inside()
                && final(self).spec_out() == old(self).spec_out() + line@ + seq!['\n'],
            !old(self).spec_raw() ==> final(self).spec_inside() == spec_filter_step(
                old(self).spec_inside(),
                line@,
            ).0 && final(self).spec_out() == old(self).spec_out() + spec_filter_step(
                old(self).spec_inside(),
                line@,
            ).1,
    {
        if self.raw {
            self.out.append(line);
            self.out.append("\n");
            proof {
                reveal_strlit("\n");
                assert(self.out@ =~= old(self).spec_out() + line@ + seq!['\n']);
            }
        } else if has_prefix(line, "__xmakers_start__") {
            self.inside = true;
            proof {
                assert(self.out@ =~= old(self).spec_out() + Seq::<char>::empty());
            }
        } else if has_prefix(line, "__xmakers_end__") {
            self.inside = false;
            proof {
                assert(self.out@ =~= old(self).spec_out() + Seq::<char>::empty());
            }
        } else if self.inside {
            self.out.append(line);
            self.out.append("\n");
            proof {
                reveal_strlit("\n");
                assert(self.out@ =~= old(self).spec_out() + (line@ + seq!['\n']));
            }
        } else {
            proof {
                assert(self.out@ =~= old(self).spec_out() + Seq::<char>::empty());
            }
        }
    }

    /// The text retained so far.
    pub fn output(&self) -> (r: &str)
        ensures
            r@ == self.spec_out(),
    {
        self.out.as_str()
    }
}

/// Run a fresh filter over a whole sequence of lines.
pub fn filter_lines(lines: &Vec<String>, raw: bool) -> (r: String)
    ensures
        r@ == spec_filter_output(lines.deep_view(), raw),
{
    let ghost dv = lines.deep_view();
    let mut f = OutputFilter::new(raw);
    let mut i: usize = 0;
    proof {
        assert(dv.skip(0) =~= dv);
    }
    while i < lines.len()
        invariant
            dv == lines.deep_view(),
            0 <= i <= lines.len(),
            f.spec_raw() == raw,
            raw ==> spec_raw_text(dv) == f.spec_out() + spec_raw_text(dv.skip(i as int)),
            !raw ==> spec_filtered_from(dv, false).1 == f.spec_out() + spec_filtered_from(
                dv.skip(i as int),
                f.spec_inside(),
            ).1 && spec_filtered_from(dv, false).0 == spec_filtered_from(
                dv.skip(i as int),
                f.spec_inside(),
            ).0,
        decreases lines.len() - i,
    {
        let ghost tail = dv.skip(i as int);
        proof {
            assert(tail.len() > 0);
            assert(tail[0] == dv[i as int]);
            assert(tail.drop_first() =~= dv.skip(i as int + 1));
        }
        let ghost out0 = f.spec_out();
        let ghost in0 = f.spec_inside();
        f.feed_line(lines[i].as_str());
        proof {
            if raw {
                assert(out0 + (dv[i as int] + seq!['\n'] + spec_raw_text(dv.skip(i as int + 1)))
                    =~= (out0 + dv[i as int] + seq!['\n']) + spec_raw_text(dv.skip(i as int + 1)));
            } else {
                let step = spec_filter_step(in0, dv[i as int]);
                assert(out0 + (step.1 + spec_filtered_from(dv.skip(i as int + 1), step.0).1) =~= (
                out0 + step.1) + spec_filtered_from(dv.skip(i as int + 1), step.0).1);
            }
        }
        i += 1;
    }
    proof {
        assert(dv.skip(lines.len() as int) =~= Seq::<Seq<char>>::empty());
    }
    let r = String::from_str(f.output());
    r
}

} // verus!
