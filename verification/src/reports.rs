//! The reports sent to the error tracker about a solve: the details of its
//! requests, the command that reproduces it, and the warnings for a long
//! or interrupted solve, with the fingerprints that group them.

use vstd::prelude::*;
use vstd::utf8::encode_utf8;
use crate::multi_solve::SentryWarning;
use crate::ordering::{compare_text, lemma_bytes_order_transitive, lemma_text_order_props, text_order};
use crate::text::{decimal, join, join_strings, push_decimal, push_text, texts};

verus! {

/// `a` comes before `b`, or is equal to it, in text order.
pub open spec fn text_le(a: Seq<char>, b: Seq<char>) -> bool {
    text_order(a, b) <= 0
}

proof fn lemma_text_le_transitive(a: Seq<char>, b: Seq<char>, c: Seq<char>)
    requires
        text_le(a, b),
        text_le(b, c),
    ensures
        text_le(a, c),
{
    lemma_bytes_order_transitive(encode_utf8(a), encode_utf8(b), encode_utf8(c));
}

/// The texts are in ascending text order.
pub open spec fn ascending(s: Seq<Seq<char>>) -> bool {
    forall|i: int, j: int| 0 <= i < j < s.len() ==> text_le(#[trigger] s[i], #[trigger] s[j])
}

/// The same texts in ascending order.
pub fn sort_texts(v: &Vec<String>) -> (r: Vec<String>)
    ensures
        ascending(texts(r@)),
        texts(r@).to_multiset() == texts(v@).to_multiset(),
{
    broadcast use vstd::seq_lib::to_multiset_insert;

    let mut out: Vec<String> = Vec::new();
    let mut i: usize = 0;
    proof {
        assert(texts(out@) =~= Seq::<Seq<char>>::empty());
        assert(texts(v@).take(0) =~= Seq::<Seq<char>>::empty());
    }
    while i < v.len()
        invariant
            0 <= i <= v@.len(),
            ascending(texts(out@)),
            texts(out@).to_multiset() == texts(v@).take(i as int).to_multiset(),
        decreases v@.len() - i,
    {
        let x = &v[i];
        let mut p: usize = 0;
        while p < out.len() && compare_text(x, &out[p]) >= 0
            invariant
                0 <= p <= out@.len(),
                forall|k: int| 0 <= k < p ==> text_le(#[trigger] out@[k]@, x@),
            decreases out@.len() - p,
        {
            proof {
                lemma_text_order_props(x@, out@[p as int]@);
            }
            p = p + 1;
        }
        let ghost before = texts(out@);
        proof {
            if p < out@.len() {
                lemma_text_order_props(x@, out@[p as int]@);
            }
        }
        out.insert(p, x.clone());
        proof {
            let after = texts(out@);
            assert(after =~= before.insert(p as int, x@));
            assert forall|a: int, b: int| 0 <= a < b < after.len() implies text_le(
                #[trigger] after[a],
                #[trigger] after[b],
            ) by {
                if a < p && b == p {
                    assert(after[a] == out@[a]@);
                } else if a < p && b > p {
                    assert(after[a] == before[a]);
                    assert(after[b] == before[b - 1]);
                } else if a == p {
                    assert(text_le(x@, before[p as int]));
                    if b - 1 > p {
                        assert(text_le(before[p as int], before[b - 1]));
                        lemma_text_le_transitive(x@, before[p as int], before[b - 1]);
                    }
                } else if a > p {
                    assert(after[a] == before[a - 1]);
                    assert(after[b] == before[b - 1]);
                }
            }
            assert(texts(v@).take(i + 1) =~= texts(v@).take(i as int).push(x@));
            vstd::seq_lib::to_multiset_build(texts(v@).take(i as int), x@);
            vstd::seq_lib::to_multiset_insert(before, p as int, x@);
            assert(texts(out@).to_multiset() == before.to_multiset().insert(x@));
        }
        i = i + 1;
    }
    proof {
        assert(texts(v@).take(v@.len() as int) =~= texts(v@));
    }
    out
}

/// The start and the end of the message of a warning; the time the solve
/// took goes between them, the solve's requests after them.
pub open spec fn warning_parts(
    kind: SentryWarning,
    long_solves_threshold: u64,
    timeout_secs: nat,
) -> (Seq<char>, Seq<char>) {
    match kind {
        SentryWarning::LongSolve => ("Long solve ("@, " >"@ + decimal(long_solves_threshold as nat) + " secs)"@),
        SentryWarning::SolverInterruptedByUser => ("Solver interrupted by user ... "@, " for"@),
        SentryWarning::SolverInterruptedByTimeout => (
            "Solve interrupted by timeout after "@,
            " (>"@ + decimal(timeout_secs) + " secs) for"@,
        ),
    }
}

/// The warning sent about a solve, as plain values: its title and its
/// fingerprints.
pub open spec fn warning_report(
    kind: SentryWarning,
    long_solves_threshold: u64,
    timeout_secs: nat,
    seconds: Seq<char>,
    sorted_requests: Seq<Seq<char>>,
) -> (Seq<char>, Seq<Seq<char>>) {
    let (prefix, suffix) = warning_parts(kind, long_solves_threshold, timeout_secs);
    (
        prefix + seconds + " secs"@ + suffix + ": "@ + join(sorted_requests, " "@),
        seq![prefix + suffix] + sorted_requests,
    )
}

/// A warning for the error tracker.
#[derive(Debug)]
pub struct WarningReport {
    pub title: String,
    pub fingerprints: Vec<String>,
}

/// The warning sent about a long or interrupted solve: its title names the
/// time it took (`seconds`, already formatted) and its initial requests in
/// text order; its fingerprints leave the time out so that such solves of
/// the same requests are grouped. The timeout is `max_too_long_count`
/// periods of `too_long_secs` seconds.
pub fn warning_report_for(
    kind: SentryWarning,
    long_solves_threshold: u64,
    max_too_long_count: u64,
    too_long_secs: u64,
    seconds: &String,
    requests: &Vec<String>,
) -> (r: WarningReport)
    requires
        max_too_long_count * too_long_secs <= u64::MAX,
    ensures
        exists|s: Seq<String>|
            #[trigger] sorted_as(requests@, s) && (r.title@, texts(r.fingerprints@)) == warning_report(
                kind,
                long_solves_threshold,
                (max_too_long_count * too_long_secs) as nat,
                seconds@,
                texts(s),
            ),
{
    let sorted = sort_texts(requests);
    let mut prefix = String::new();
    let mut suffix = String::new();
    match kind {
        SentryWarning::LongSolve => {
            push_text(&mut prefix, "Long solve (");
            push_text(&mut suffix, " >");
            push_decimal(&mut suffix, long_solves_threshold);
            push_text(&mut suffix, " secs)");
        },
        SentryWarning::SolverInterruptedByUser => {
            push_text(&mut prefix, "Solver interrupted by user ... ");
            push_text(&mut suffix, " for");
        },
        SentryWarning::SolverInterruptedByTimeout => {
            push_text(&mut prefix, "Solve interrupted by timeout after ");
            push_text(&mut suffix, " (>");
            push_decimal(&mut suffix, max_too_long_count * too_long_secs);
            push_text(&mut suffix, " secs) for");
        },
    }
    let mut title = prefix.clone();
    push_text(&mut title, seconds.as_str());
    push_text(&mut title, " secs");
    push_text(&mut title, suffix.as_str());
    push_text(&mut title, ": ");
    let joined = join_strings(&sorted, " ");
    push_text(&mut title, joined.as_str());
    let mut head = prefix;
    push_text(&mut head, suffix.as_str());
    let mut fingerprints: Vec<String> = Vec::new();
    fingerprints.push(head);
    let mut k: usize = 0;
    while k < sorted.len()
        invariant
            0 <= k <= sorted@.len(),
            fingerprints@.len() == k + 1,
            fingerprints@[0]@ == warning_parts(
                kind,
                long_solves_threshold,
                (max_too_long_count * too_long_secs) as nat,
            ).0 + warning_parts(kind, long_solves_threshold, (max_too_long_count * too_long_secs) as nat).1,
            forall|j: int| 0 <= j < k ==> (#[trigger] fingerprints@[j + 1])@ == sorted@[j]@,
        decreases sorted@.len() - k,
    {
        fingerprints.push(sorted[k].clone());
        k = k + 1;
    }
    proof {
        let parts = warning_parts(kind, long_solves_threshold, (max_too_long_count * too_long_secs) as nat);
        assert(texts(fingerprints@) =~= seq![parts.0 + parts.1] + texts(sorted@)) by {
            assert forall|j: int| 0 <= j < texts(fingerprints@).len() implies texts(fingerprints@)[j] == (seq![
                parts.0 + parts.1,
            ] + texts(sorted@))[j] by {
                if j > 0 {
                    assert(fingerprints@[(j - 1) + 1] == fingerprints@[j]);
                }
            }
        }
        assert(sorted_as(requests@, sorted@));
    }
    WarningReport { title, fingerprints }
}

/// `s` holds the texts of `v` in ascending text order.
pub open spec fn sorted_as(v: Seq<String>, s: Seq<String>) -> bool {
    ascending(texts(s)) && texts(s).to_multiset() == texts(v).to_multiset()
}

/// The message sent about a printing run that took longer than the
/// threshold: the threshold and the initial requests in text order.
pub fn long_solve_message(long_solves_threshold: u64, requests: &Vec<String>) -> (r: String)
    ensures
        exists|s: Seq<String>|
            #[trigger] sorted_as(requests@, s) && r@ == "Long solve (>"@ + decimal(long_solves_threshold as nat)
                + " secs): "@ + join(texts(s), " "@),
{
    let sorted = sort_texts(requests);
    let mut r = String::new();
    push_text(&mut r, "Long solve (>");
    push_decimal(&mut r, long_solves_threshold);
    push_text(&mut r, " secs): ");
    let joined = join_strings(&sorted, " ");
    push_text(&mut r, joined.as_str());
    assert(sorted_as(requests@, sorted@));
    r
}

/// A var request of the solve, with its value when it is pinned to one.
#[derive(Debug)]
pub struct VarRequestText {
    pub var: String,
    pub value: Option<String>,
}

/// How a var request is shown in the details: its name and its value (empty
/// when it has none).
pub open spec fn var_detail(v: VarRequestText) -> Seq<char> {
    v.var@ + ": "@ + match v.value {
        Some(x) => x@,
        None => ""@,
    }
}

/// The option a var request passes on the command line, when pinned.
pub open spec fn var_option(v: VarRequestText) -> Seq<char> {
    "-o "@ + v.var@ + "="@ + v.value.unwrap()@
}

/// The options of the pinned var requests among the first `n`.
pub open spec fn var_options(vars: Seq<VarRequestText>, n: int) -> Seq<Seq<char>>
    decreases n,
{
    if n <= 0 {
        Seq::empty()
    } else if vars[n - 1].value is Some {
        var_options(vars, n - 1).push(var_option(vars[n - 1]))
    } else {
        var_options(vars, n - 1)
    }
}

/// The command that reproduces a solve: `spk explain`, its package
/// requests, then an option for each pinned var request.
pub open spec fn explain_command(requests: Seq<Seq<char>>, vars: Seq<VarRequestText>) -> Seq<char> {
    "spk explain "@ + join(requests, " "@) + " "@ + join(var_options(vars, vars.len() as int), " "@)
}

/// The details of a solve for the error tracker: its var requests as
/// shown, and the command that reproduces it.
pub fn solve_details(requests: &Vec<String>, vars: &Vec<VarRequestText>) -> (r: (Vec<String>, String))
    ensures
        texts(r.0@) == Seq::new(vars@.len(), |i: int| var_detail(vars@[i])),
        r.1@ == explain_command(texts(requests@), vars@),
{
    let mut details: Vec<String> = Vec::new();
    let mut options: Vec<String> = Vec::new();
    let mut i: usize = 0;
    while i < vars.len()
        invariant
            0 <= i <= vars@.len(),
            texts(details@) == Seq::new(i as nat, |k: int| var_detail(vars@[k])),
            texts(options@) == var_options(vars@, i as int),
        decreases vars@.len() - i,
    {
        let v = &vars[i];
        let ghost old_details = texts(details@);
        let mut d = v.var.clone();
        push_text(&mut d, ": ");
        match &v.value {
            Some(x) => {
                push_text(&mut d, x.as_str());
                let mut o = String::new();
                push_text(&mut o, "-o ");
                push_text(&mut o, v.var.as_str());
                push_text(&mut o, "=");
                push_text(&mut o, x.as_str());
                options.push(o);
            },
            None => {
                push_text(&mut d, "");
            },
        }
        assert(d@ == var_detail(*v));
        details.push(d);
        proof {
            assert(texts(details@) =~= old_details.push(var_detail(vars@[i as int])));
            assert(texts(details@) =~= Seq::new((i + 1) as nat, |k: int| var_detail(vars@[k])));
            assert(texts(options@) =~= var_options(vars@, i + 1));
        }
        i = i + 1;
    }
    let mut cmd = String::new();
    push_text(&mut cmd, "spk explain ");
    let reqs = join_strings(requests, " ");
    push_text(&mut cmd, reqs.as_str());
    push_text(&mut cmd, " ");
    let opts = join_strings(&options, " ");
    push_text(&mut cmd, opts.as_str());
    (details, cmd)
}

} // verus!
