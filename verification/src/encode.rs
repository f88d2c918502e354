//! Deterministic rendering of metric state in the text exposition format.
//!
//! Every rendering function appends to an output string exactly the
//! character sequence given by a spec function, so a whole document is
//! pinned down, character by character, by the registry's state.

use vstd::prelude::*;
use crate::labels::{AppLabels, AppLabelsV, LatencyLabels, LatencyLabelsV, Method};
use crate::counter::CountMetrics;
use crate::histogram::{
    hist_wf, hists_wf, lemma_hists_wf_index, lemma_seq_sum_take_le, lemma_seq_sum_take_step,
    seq_sum, Histogram, HistogramV, HisgMetrics,
};

verus! {

/// The character for one decimal digit.
pub open spec fn spec_digit(d: int) -> char {
    if d == 0 {
        '0'
    } else if d == 1 {
        '1'
    } else if d == 2 {
        '2'
    } else if d == 3 {
        '3'
    } else if d == 4 {
        '4'
    } else if d == 5 {
        '5'
    } else if d == 6 {
        '6'
    } else if d == 7 {
        '7'
    } else if d == 8 {
        '8'
    } else {
        '9'
    }
}

/// The decimal rendering of a natural number, most significant digit first.
pub open spec fn dec_nat(n: nat) -> Seq<char>
    decreases n,
{
    if n < 10 {
        seq![spec_digit(n as int)]
    } else {
        dec_nat(n / 10).push(spec_digit((n % 10) as int))
    }
}

/// The decimal rendering of an integer, with a leading minus sign when
/// negative.
pub open spec fn dec_int(i: int) -> Seq<char> {
    if i < 0 {
        seq!['-'] + dec_nat((-i) as nat)
    } else {
        dec_nat(i as nat)
    }
}

/// The canonical text of a method symbol.
pub open spec fn method_chars(m: Method) -> Seq<char> {
    match m {
        Method::Get => "Get"@,
        Method::Post => "Post"@,
    }
}

/// The rendered label pairs of a counter label set, braces included.
pub open spec fn app_labels_chars(l: AppLabelsV) -> Seq<char> {
    "{method=\""@ + method_chars(l.method) + "\",script_name=\""@ + l.script_name
        + "\",namespace=\""@ + l.namespace + "\",app=\""@ + l.app + "\"}"@
}

/// The rendered label pairs of a latency label set, without the closing
/// brace, so that a bucket line can add its `le` pair.
pub open spec fn latency_labels_open(l: LatencyLabelsV) -> Seq<char> {
    "{method=\""@ + method_chars(l.method) + "\",type=\""@ + l.typ + "\",module=\""@ + l.module
        + "\",status=\""@ + dec_int(l.status) + "\""@
}

/// The rendered label pairs of a latency label set, braces included.
pub open spec fn latency_labels_chars(l: LatencyLabelsV) -> Seq<char> {
    latency_labels_open(l) + "}"@
}

/// One counter data line: name, labels and current count.
pub open spec fn counter_line(name: Seq<char>, e: (AppLabelsV, nat)) -> Seq<char> {
    name + "_total"@ + app_labels_chars(e.0) + " "@ + dec_nat(e.1) + "\n"@
}

/// The counter data lines of the first `i` tracked label sets.
pub open spec fn counter_lines(name: Seq<char>, s: Seq<(AppLabelsV, nat)>, i: int) -> Seq<char>
    decreases i,
{
    if i <= 0 {
        Seq::<char>::empty()
    } else {
        counter_lines(name, s, i - 1) + counter_line(name, s[i - 1])
    }
}

/// One whole counter family: help and type header, then one line per
/// tracked label set.
pub open spec fn counter_block(name: Seq<char>, help: Seq<char>, s: Seq<(AppLabelsV, nat)>)
    -> Seq<char> {
    "# HELP "@ + name + " "@ + help + "\n"@ + "# TYPE "@ + name + " counter\n"@ + counter_lines(
        name,
        s,
        s.len() as int,
    )
}

/// One histogram bucket line: the cumulative count of observations at or
/// below the rendered upper bound.
pub open spec fn bucket_line(name: Seq<char>, l: LatencyLabelsV, le: Seq<char>, c: nat)
    -> Seq<char> {
    name + "_bucket"@ + latency_labels_open(l) + ",le=\""@ + le + "\"}"@ + " "@ + dec_nat(c)
        + "\n"@
}

/// The bucket lines for the first `i` bounds of one histogram.
pub open spec fn bucket_lines(name: Seq<char>, l: LatencyLabelsV, h: HistogramV, i: int)
    -> Seq<char>
    decreases i,
{
    if i <= 0 {
        Seq::<char>::empty()
    } else {
        bucket_lines(name, l, h, i - 1) + bucket_line(
            name,
            l,
            dec_int(h.bounds[i - 1]),
            seq_sum(h.buckets.take(i)),
        )
    }
}

/// The catch-all bucket line: every observation counts into it.
pub open spec fn inf_line(name: Seq<char>, l: LatencyLabelsV, h: HistogramV) -> Seq<char> {
    bucket_line(name, l, "+Inf"@, seq_sum(h.buckets))
}

/// The running-sum line of one tracked histogram.
pub open spec fn sum_line(name: Seq<char>, l: LatencyLabelsV, h: HistogramV) -> Seq<char> {
    name + "_sum"@ + latency_labels_chars(l) + " "@ + dec_int(h.sum) + "\n"@
}

/// The observation-count line of one tracked histogram.
pub open spec fn count_line(name: Seq<char>, l: LatencyLabelsV, h: HistogramV) -> Seq<char> {
    name + "_count"@ + latency_labels_chars(l) + " "@ + dec_nat(h.count) + "\n"@
}

/// All data lines of one tracked histogram: the cumulative bucket lines,
/// the catch-all bucket, the running sum and the observation count.
pub open spec fn hist_entry(name: Seq<char>, l: LatencyLabelsV, h: HistogramV) -> Seq<char> {
    bucket_lines(name, l, h, h.bounds.len() as int) + inf_line(name, l, h) + sum_line(name, l, h)
        + count_line(name, l, h)
}

/// The data lines of the first `i` tracked histograms of a family.
pub open spec fn hist_lines(name: Seq<char>, s: Seq<(LatencyLabelsV, HistogramV)>, i: int)
    -> Seq<char>
    decreases i,
{
    if i <= 0 {
        Seq::<char>::empty()
    } else {
        hist_lines(name, s, i - 1) + hist_entry(name, s[i - 1].0, s[i - 1].1)
    }
}

/// One whole histogram family: help and type header, then the data lines
/// of every tracked label set.
pub open spec fn hist_block(
    name: Seq<char>,
    help: Seq<char>,
    s: Seq<(LatencyLabelsV, HistogramV)>,
) -> Seq<char> {
    "# HELP "@ + name + " "@ + help + "\n"@ + "# TYPE "@ + name + " histogram\n"@ + hist_lines(
        name,
        s,
        s.len() as int,
    )
}

/// Appends the character of one decimal digit.
fn push_digit(out: &mut String, d: u64)
    requires
        d < 10,
    ensures
        final(out)@ == old(out)@ + seq![spec_digit(d as int)],
{
    if d == 0 {
        out.append("0");
        proof {
            reveal_strlit("0");
            assert(out@ =~= old(out)@ + seq![spec_digit(d as int)]);
        }
    } else if d == 1 {
        out.append("1");
        proof {
            reveal_strlit("1");
            assert(out@ =~= old(out)@ + seq![spec_digit(d as int)]);
        }
    } else if d == 2 {
        out.append("2");
        proof {
            reveal_strlit("2");
            assert(out@ =~= old(out)@ + seq![spec_digit(d as int)]);
        }
    } else if d == 3 {
        out.append("3");
        proof {
            reveal_strlit("3");
            assert(out@ =~= old(out)@ + seq![spec_digit(d as int)]);
        }
    } else if d == 4 {
        out.append("4");
        proof {
            reveal_strlit("4");
            assert(out@ =~= old(out)@ + seq![spec_digit(d as int)]);
        }
    } else if d == 5 {
        out.append("5");
        proof {
            reveal_strlit("5");
            assert(out@ =~= old(out)@ + seq![spec_digit(d as int)]);
        }
    } else if d == 6 {
        out.append("6");
        proof {
            reveal_strlit("6");
            assert(out@ =~= old(out)@ + seq![spec_digit(d as int)]);
        }
    } else if d == 7 {
        out.append("7");
        proof {
            reveal_strlit("7");
            assert(out@ =~= old(out)@ + seq![spec_digit(d as int)]);
        }
    } else if d == 8 {
        out.append("8");
        proof {
            reveal_strlit("8");
            assert(out@ =~= old(out)@ + seq![spec_digit(d as int)]);
        }
    } else {
        out.append("9");
        proof {
            reveal_strlit("9");
            assert(out@ =~= old(out)@ + seq![spec_digit(d as int)]);
        }
    }
}

/// Appends the decimal rendering of `n`.
fn push_dec_u128(out: &mut String, n: u128)
    ensures
        final(out)@ == old(out)@ + dec_nat(n as nat),
    decreases n,
{
    if n >= 10 {
        push_dec_u128(out, n / 10);
        push_digit(out, (n % 10) as u64);
        proof {
            assert(out@ =~= old(out)@ + dec_nat(n as nat));
        }
    } else {
        push_digit(out, n as u64);
    }
}

/// Appends the decimal rendering of `v`, sign included.
fn push_dec_i128(out: &mut String, v: i128)
    ensures
        final(out)@ == old(out)@ + dec_int(v as int),
{
    if v >= 0 {
        push_dec_u128(out, v as u128);
    } else {
        out.append("-");
        let mag: u128 = ((-(v + 1)) as u128) + 1;
        push_dec_u128(out, mag);
        proof {
            reveal_strlit("-");
            assert(out@ =~= old(out)@ + dec_int(v as int));
        }
    }
}

/// Appends the canonical text of a method symbol.
fn push_method(out: &mut String, m: &Method)
    ensures
        final(out)@ == old(out)@ + method_chars(*m),
{
    match m {
        Method::Get => out.append("Get"),
        Method::Post => out.append("Post"),
    }
}

/// Appends the rendered label pairs of a counter label set.
fn push_app_labels(out: &mut String, l: &AppLabels)
    ensures
        final(out)@ == old(out)@ + app_labels_chars(l@),
{
    out.append("{method=\"");
    push_method(out, &l.method);
    out.append("\",script_name=\"");
    out.append(l.script_name.as_str());
    out.append("\",namespace=\"");
    out.append(l.namespace.as_str());
    out.append("\",app=\"");
    out.append(l.app.as_str());
    out.append("\"}");
    proof {
        assert(out@ =~= old(out)@ + app_labels_chars(l@));
    }
}

/// Appends the rendered label pairs of a latency label set, leaving the
/// braces open for an `le` pair.
fn push_latency_labels_open(out: &mut String, l: &LatencyLabels)
    ensures
        final(out)@ == old(out)@ + latency_labels_open(l@),
{
    out.append("{method=\"");
    push_method(out, &l.method);
    out.append("\",type=\"");
    out.append(l.typ.as_str());
    out.append("\",module=\"");
    out.append(l.module.as_str());
    out.append("\",status=\"");
    push_dec_i128(out, l.status as i128);
    out.append("\"");
    proof {
        assert(out@ =~= old(out)@ + latency_labels_open(l@));
    }
}

/// Appends the rendered label pairs of a latency label set.
fn push_latency_labels(out: &mut String, l: &LatencyLabels)
    ensures
        final(out)@ == old(out)@ + latency_labels_chars(l@),
{
    push_latency_labels_open(out, l);
    out.append("}");
    proof {
        assert(out@ =~= old(out)@ + latency_labels_chars(l@));
    }
}

/// Appends one counter data line.
fn push_counter_line(out: &mut String, name: &str, l: &AppLabels, value: u64)
    ensures
        final(out)@ == old(out)@ + counter_line(name@, (l@, value as nat)),
{
    out.append(name);
    out.append("_total");
    push_app_labels(out, l);
    out.append(" ");
    push_dec_u128(out, value as u128);
    out.append("\n");
    proof {
        assert(out@ =~= old(out)@ + counter_line(name@, (l@, value as nat)));
    }
}

/// Appends one whole counter family block.
pub fn push_counter_block(out: &mut String, name: &str, help: &str, fam: &CountMetrics)
    ensures
        final(out)@ == old(out)@ + counter_block(name@, help@, fam@),
{
    out.append("# HELP ");
    out.append(name);
    out.append(" ");
    out.append(help);
    out.append("\n");
    out.append("# TYPE ");
    out.append(name);
    out.append(" counter\n");
    let ghost header = "# HELP "@ + name@ + " "@ + help@ + "\n"@ + "# TYPE "@ + name@
        + " counter\n"@;
    proof {
        assert(out@ =~= old(out)@ + header);
    }
    let n = fam.tracked_len();
    for i in 0..n
        invariant
            n == fam@.len(),
            out@ == old(out)@ + header + counter_lines(name@, fam@, i as int),
    {
        let e = fam.entry_at(i);
        push_counter_line(out, name, e.0, e.1);
        proof {
            assert(out@ =~= old(out)@ + header + counter_lines(name@, fam@, i + 1));
        }
    }
    proof {
        assert(out@ =~= old(out)@ + counter_block(name@, help@, fam@));
    }
}

/// Appends the catch-all bucket line.
fn push_inf_line(out: &mut String, name: &str, l: &LatencyLabels, h: &Histogram, acc: u64)
    requires
        acc as nat == seq_sum(h@.buckets),
    ensures
        final(out)@ == old(out)@ + inf_line(name@, l@, h@),
{
    out.append(name);
    out.append("_bucket");
    push_latency_labels_open(out, l);
    out.append(",le=\"");
    out.append("+Inf");
    out.append("\"}");
    out.append(" ");
    push_dec_u128(out, acc as u128);
    out.append("\n");
    proof {
        assert(out@ =~= old(out)@ + inf_line(name@, l@, h@));
    }
}

/// Appends the running-sum line.
fn push_sum_line(out: &mut String, name: &str, l: &LatencyLabels, h: &Histogram)
    ensures
        final(out)@ == old(out)@ + sum_line(name@, l@, h@),
{
    out.append(name);
    out.append("_sum");
    push_latency_labels(out, l);
    out.append(" ");
    push_dec_i128(out, h.sum());
    out.append("\n");
    proof {
        assert(out@ =~= old(out)@ + sum_line(name@, l@, h@));
    }
}

/// Appends the observation-count line.
fn push_count_line(out: &mut String, name: &str, l: &LatencyLabels, h: &Histogram)
    ensures
        final(out)@ == old(out)@ + count_line(name@, l@, h@),
{
    out.append(name);
    out.append("_count");
    push_latency_labels(out, l);
    out.append(" ");
    push_dec_u128(out, h.count() as u128);
    out.append("\n");
    proof {
        assert(out@ =~= old(out)@ + count_line(name@, l@, h@));
    }
}

/// Appends all data lines of one tracked histogram.
fn push_hist_entry(out: &mut String, name: &str, l: &LatencyLabels, h: &Histogram)
    requires
        hist_wf(h@),
    ensures
        final(out)@ == old(out)@ + hist_entry(name@, l@, h@),
{
    let nb = h.num_bounds();
    let mut acc: u64 = 0;
    proof {
        assert(h@.buckets.take(0) =~= Seq::<nat>::empty());
    }
    for i in 0..nb
        invariant
            nb == h@.bounds.len(),
            hist_wf(h@),
            acc as nat == seq_sum(h@.buckets.take(i as int)),
            out@ == old(out)@ + bucket_lines(name@, l@, h@, i as int),
    {
        proof {
            lemma_seq_sum_take_step(h@.buckets, i as int);
            lemma_seq_sum_take_le(h@.buckets, i + 1);
        }
        acc = acc + h.bucket_at(i);
        out.append(name);
        out.append("_bucket");
        push_latency_labels_open(out, l);
        out.append(",le=\"");
        let b = h.bound_at(i);
        push_dec_i128(out, b as i128);
        out.append("\"}");
        out.append(" ");
        push_dec_u128(out, acc as u128);
        out.append("\n");
        proof {
            assert(out@ =~= old(out)@ + bucket_lines(name@, l@, h@, i + 1));
        }
    }
    proof {
        lemma_seq_sum_take_step(h@.buckets, nb as int);
        lemma_seq_sum_take_le(h@.buckets, nb + 1);
        assert(h@.buckets.take(nb + 1) =~= h@.buckets);
    }
    acc = acc + h.bucket_at(nb);
    push_inf_line(out, name, l, h, acc);
    push_sum_line(out, name, l, h);
    push_count_line(out, name, l, h);
    proof {
        assert(out@ =~= old(out)@ + hist_entry(name@, l@, h@));
    }
}

/// Appends one whole histogram family block.
pub fn push_hist_block(out: &mut String, name: &str, help: &str, fam: &HisgMetrics)
    requires
        hists_wf(fam@, fam.spec_bounds()),
    ensures
        final(out)@ == old(out)@ + hist_block(name@, help@, fam@),
{
    out.append("# HELP ");
    out.append(name);
    out.append(" ");
    out.append(help);
    out.append("\n");
    out.append("# TYPE ");
    out.append(name);
    out.append(" histogram\n");
    let ghost header = "# HELP "@ + name@ + " "@ + help@ + "\n"@ + "# TYPE "@ + name@
        + " histogram\n"@;
    proof {
        assert(out@ =~= old(out)@ + header);
    }
    let n = fam.tracked_len();
    for i in 0..n
        invariant
            n == fam@.len(),
            hists_wf(fam@, fam.spec_bounds()),
            out@ == old(out)@ + header + hist_lines(name@, fam@, i as int),
    {
        let e = fam.entry_at(i);
        proof {
            lemma_hists_wf_index(fam@, fam.spec_bounds(), i as int);
        }
        push_hist_entry(out, name, e.0, e.1);
        proof {
            assert(out@ =~= old(out)@ + header + hist_lines(name@, fam@, i + 1));
        }
    }
    proof {
        assert(out@ =~= old(out)@ + hist_block(name@, help@, fam@));
    }
}

} // verus!
