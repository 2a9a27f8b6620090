//! rmapi deploy backend: upload PDFs to the reMarkable cloud and refresh their
//! content non-destructively (preserving on-device handwriting).
//!
//! The command sequences are computed by plan functions with exact contracts;
//! the deployer hands each planned command to an [`RmapiRunner`].
use vstd::prelude::*;
use super::{DeployError, Deployer};
use vstd::string::StringExecFns;
use crate::text::{trim_end_char, trim_start_char, trim_ws_bounds, trim_start_char_bound, has_prefix_at, chars_of, decimal, push_char, push_decimal_i64, push_str, string_from,
    trim_bounds, trim_char, trim_char_bounds, trim_ws};

verus! {

/// Length of the run of non-`/` characters that `s` starts with.
pub open spec fn run_len(s: Seq<char>) -> nat
    decreases s.len(),
{
    if s.len() == 0 || s[0] == '/' {
        0
    } else {
        1 + run_len(s.drop_first())
    }
}

/// The non-empty `/`-separated components of a cloud path, in order.
pub open spec fn path_parts(s: Seq<char>) -> Seq<Seq<char>>
    decreases s.len(),
{
    if s.len() == 0 {
        Seq::empty()
    } else if s[0] == '/' {
        path_parts(s.drop_first())
    } else {
        let n = run_len(s);
        proof {
            lemma_run_len_bound(s);
        }
        if n == 0 {
            Seq::empty()
        } else {
            seq![s.take(n as int)] + path_parts(s.skip(n as int))
        }
    }
}

/// A run of non-`/` characters is no longer than the text it starts.
pub proof fn lemma_run_len_bound(s: Seq<char>)
    ensures
        run_len(s) <= s.len(),
    decreases s.len(),
{
    if s.len() > 0 && s[0] != '/' {
        lemma_run_len_bound(s.drop_first());
    }
}

/// `"/" + ps[0] + "/" + … + ps[k - 1]`: the folder made of the first `k` parts.
pub open spec fn joined_parts(ps: Seq<Seq<char>>, k: int) -> Seq<char>
    decreases k,
{
    if k <= 0 {
        Seq::empty()
    } else {
        joined_parts(ps, k - 1) + seq!['/'] + ps[k - 1]
    }
}

/// The folders to create for `path`, parents first: one per path component,
/// each the path cut after that component ("/a/b" → ["/a", "/a/b"]).
pub open spec fn folder_chain_spec(path: Seq<char>) -> Seq<Seq<char>> {
    let ps = path_parts(path);
    Seq::new(ps.len(), |i: int| joined_parts(ps, i + 1))
}

proof fn lemma_run_len_step(s: Seq<char>, j: int)
    requires
        0 <= j < s.len(),
        s[j] != '/',
    ensures
        run_len(s.skip(j)) == 1 + run_len(s.skip(j + 1)),
{
    assert(s.skip(j).drop_first() == s.skip(j + 1));
}

proof fn lemma_path_parts_slash(s: Seq<char>, i: int)
    requires
        0 <= i < s.len(),
        s[i] == '/',
    ensures
        path_parts(s.skip(i)) == path_parts(s.skip(i + 1)),
{
    assert(s.skip(i).drop_first() == s.skip(i + 1));
}

/// The chain of folders to create for `path`, parents first, so a non-recursive
/// `mkdir` can build the whole hierarchy: "/rmbujo/2027" -> ["/rmbujo", "/rmbujo/2027"].
pub fn folder_chain(path: &str) -> (r: Vec<String>)
    ensures
        r@.len() == folder_chain_spec(path@).len(),
        forall|i: int| 0 <= i < r@.len() ==> (#[trigger] r@[i])@ == folder_chain_spec(path@)[i],
{
    let v = chars_of(path);
    let mut chain: Vec<String> = Vec::new();
    let mut acc = String::new();
    let ghost mut done: Seq<Seq<char>> = Seq::empty();
    let mut i: usize = 0;
    assert(v@.skip(0) == v@);
    while i < v.len()
        invariant
            v@ == path@,
            i <= v@.len(),
            path_parts(v@) == done + path_parts(v@.skip(i as int)),
            chain@.len() == done.len(),
            acc@ == joined_parts(done, done.len() as int),
            forall|k: int| 0 <= k < chain@.len() ==> (#[trigger] chain@[k])@ == joined_parts(done, k + 1),
        decreases v@.len() - i,
    {
        if v[i] == '/' {
            proof {
                lemma_path_parts_slash(v@, i as int);
            }
            i = i + 1;
        } else {
            let mut j: usize = i;
            while j < v.len() && v[j] != '/'
                invariant
                    i <= j <= v@.len(),
                    run_len(v@.skip(i as int)) == (j - i) + run_len(v@.skip(j as int)),
                decreases v@.len() - j,
            {
                proof {
                    lemma_run_len_step(v@, j as int);
                }
                j = j + 1;
            }
            proof {
                if j < v@.len() {
                    assert(v@.skip(j as int)[0] == '/');
                }
                assert(run_len(v@.skip(j as int)) == 0);
                let s = v@.skip(i as int);
                assert(s[0] == v@[i as int]);
                assert(s.take((j - i) as int) == v@.subrange(i as int, j as int));
                assert(s.skip((j - i) as int) == v@.skip(j as int));
            }
            let part = string_from(&v, i, j);
            push_char(&mut acc, '/');
            push_str(&mut acc, part.as_str());
            let ghost old_done = done;
            proof {
                done = done.push(v@.subrange(i as int, j as int));
                assert(done.drop_last() == old_done);
                lemma_joined_prefix(old_done, done, old_done.len() as int);
                assert(joined_parts(done, done.len() as int) == joined_parts(old_done, old_done.len() as int) + seq!['/'] + v@.subrange(i as int, j as int));
                assert forall|k: int| 0 <= k < old_done.len() implies #[trigger] joined_parts(done, k + 1) == joined_parts(old_done, k + 1) by {
                    lemma_joined_prefix(old_done, done, k + 1);
                }
                assert(path_parts(v@) == done + path_parts(v@.skip(j as int)));
            }
            chain.push(acc.clone());
            i = j;
        }
    }
    proof {
        assert(v@.skip(v@.len() as int) == Seq::<char>::empty());
        assert(done == path_parts(v@));
    }
    chain
}

proof fn lemma_joined_prefix(a: Seq<Seq<char>>, b: Seq<Seq<char>>, k: int)
    requires
        0 <= k <= a.len() <= b.len(),
        forall|i: int| 0 <= i < a.len() ==> a[i] == b[i],
    ensures
        joined_parts(a, k) == joined_parts(b, k),
    decreases k,
{
    if k > 0 {
        lemma_joined_prefix(a, b, k - 1);
    }
}

/// The cloud folder for `year` under `base_folder`: the base trimmed of white
/// space and of leading/trailing `/`, then `/<base>/<year>`, or `/<year>` when
/// nothing of the base is left.
pub open spec fn cloud_target_spec(base_folder: Seq<char>, year: int) -> Seq<char> {
    let base = trim_char(trim_ws(base_folder), '/');
    if base.len() == 0 {
        seq!['/'] + decimal(year)
    } else {
        seq!['/'] + base + seq!['/'] + decimal(year)
    }
}

/// Resolve the cloud folder for a given year under a configured base folder.
/// The base is normalized to a single leading slash and no trailing slash, so
/// `"rmbujo"`, `"/rmbujo"`, and `"rmbujo/"` all map to `/rmbujo/<year>`. An empty
/// or `"/"` base yields `/<year>` at the cloud root.
pub fn cloud_target(base_folder: &str, year: i32) -> (r: String)
    ensures
        r@ == cloud_target_spec(base_folder@, year as int),
{
    let v = chars_of(base_folder);
    let (a, b) = trim_bounds(&v);
    let (lo, hi) = trim_char_bounds(&v, a, b, '/');
    let mut out = String::new();
    push_char(&mut out, '/');
    if lo < hi {
        let base = string_from(&v, lo, hi);
        push_str(&mut out, base.as_str());
        push_char(&mut out, '/');
    }
    push_decimal_i64(&mut out, year as i64);
    out
}


/// The character views of a list of strings.
pub open spec fn views(v: Seq<String>) -> Seq<Seq<char>> {
    v.map_values(|s: String| s@)
}

/// One planned rmapi invocation: its arguments (without the binary name) and
/// whether its failure aborts the deploy (`mkdir` failures are ignored, since
/// rmapi errors on an already existing folder).
#[derive(Debug, Clone)]
pub struct RmapiCall {
    pub args: Vec<String>,
    pub must_succeed: bool,
}

/// The plain value of a planned call.
pub open spec fn call_view(c: RmapiCall) -> (Seq<Seq<char>>, bool) {
    (views(c.args@), c.must_succeed)
}

/// The plain values of a list of planned calls.
pub open spec fn calls_view(cs: Seq<RmapiCall>) -> Seq<(Seq<Seq<char>>, bool)> {
    cs.map_values(|c: RmapiCall| call_view(c))
}

/// `rmapi -ni put [--content-only] <pdf> <target>`.
pub open spec fn put_cmd(pdf: Seq<char>, target: Seq<char>, content_only: bool) -> Seq<Seq<char>> {
    if content_only {
        seq!["-ni"@, "put"@, "--content-only"@, pdf, target]
    } else {
        seq!["-ni"@, "put"@, pdf, target]
    }
}

/// `rmapi -ni mkdir <dir>`.
pub open spec fn mkdir_cmd(dir: Seq<char>) -> Seq<Seq<char>> {
    seq!["-ni"@, "mkdir"@, dir]
}

/// The `mkdir` calls that create every folder of `target`, parents first;
/// their failures are ignored.
pub open spec fn mkdir_plan(target: Seq<char>) -> Seq<(Seq<Seq<char>>, bool)> {
    folder_chain_spec(target).map_values(|d: Seq<char>| (mkdir_cmd(d), false))
}

/// First upload: create the folder chain, then a plain `put` of each PDF.
pub open spec fn deploy_plan(target: Seq<char>, pdfs: Seq<Seq<char>>) -> Seq<(Seq<Seq<char>>, bool)> {
    mkdir_plan(target) + pdfs.map_values(|p: Seq<char>| (put_cmd(p, target, false), true))
}

/// Refresh: a content-only `put` of each PDF.
pub open spec fn refresh_plan(target: Seq<char>, pdfs: Seq<Seq<char>>) -> Seq<(Seq<Seq<char>>, bool)> {
    pdfs.map_values(|p: Seq<char>| (put_cmd(p, target, true), true))
}

/// The upsert calls for one PDF: a content-only `put` when its document is
/// already in the cloud; otherwise a plain `put`, preceded by the folder chain
/// unless an earlier PDF already created it.
pub open spec fn upsert_step_spec(target: Seq<char>, pdf: Seq<char>, present: bool, mkdir_done: bool) -> Seq<
    (Seq<Seq<char>>, bool),
> {
    if present {
        seq![(put_cmd(pdf, target, true), true)]
    } else if mkdir_done {
        seq![(put_cmd(pdf, target, false), true)]
    } else {
        mkdir_plan(target) + seq![(put_cmd(pdf, target, false), true)]
    }
}

/// The create-if-missing calls for one PDF: nothing when its document is
/// already in the cloud; otherwise as for upsert.
pub open spec fn create_step_spec(target: Seq<char>, pdf: Seq<char>, present: bool, mkdir_done: bool) -> Seq<
    (Seq<Seq<char>>, bool),
> {
    if present {
        Seq::empty()
    } else {
        upsert_step_spec(target, pdf, present, mkdir_done)
    }
}

/// Whether any of the first `k` documents was missing (so the folder chain has run).
pub open spec fn any_missing(present: Seq<bool>, k: int) -> bool {
    exists|i: int| 0 <= i < k && !present[i]
}

/// Every call upsert makes for `pdfs`, given whether each one's document was
/// found in the cloud.
pub open spec fn upsert_plan(target: Seq<char>, pdfs: Seq<Seq<char>>, present: Seq<bool>) -> Seq<
    (Seq<Seq<char>>, bool),
>
    decreases pdfs.len(),
{
    if pdfs.len() == 0 || present.len() < pdfs.len() {
        Seq::empty()
    } else {
        let k = pdfs.len() - 1;
        upsert_plan(target, pdfs.drop_last(), present.take(k)) + upsert_step_spec(
            target,
            pdfs[k],
            present[k],
            any_missing(present, k),
        )
    }
}

/// Every call create-if-missing makes for `pdfs`, given whether each one's
/// document was found in the cloud.
pub open spec fn create_plan(target: Seq<char>, pdfs: Seq<Seq<char>>, present: Seq<bool>) -> Seq<
    (Seq<Seq<char>>, bool),
>
    decreases pdfs.len(),
{
    if pdfs.len() == 0 || present.len() < pdfs.len() {
        Seq::empty()
    } else {
        let k = pdfs.len() - 1;
        create_plan(target, pdfs.drop_last(), present.take(k)) + create_step_spec(
            target,
            pdfs[k],
            present[k],
            any_missing(present, k),
        )
    }
}

/// The calls of create-if-missing (`skip_present`) or of upsert.
pub open spec fn chosen_plan(skip_present: bool, target: Seq<char>, pdfs: Seq<Seq<char>>, present: Seq<bool>) -> Seq<(Seq<Seq<char>>, bool)> {
    if skip_present {
        create_plan(target, pdfs, present)
    } else {
        upsert_plan(target, pdfs, present)
    }
}

/// The calls of create-if-missing (`skip_present`) or of upsert for one PDF.
pub open spec fn chosen_step(skip_present: bool, target: Seq<char>, pdf: Seq<char>, present: bool, mkdir_done: bool) -> Seq<(Seq<Seq<char>>, bool)> {
    if skip_present {
        create_step_spec(target, pdf, present, mkdir_done)
    } else {
        upsert_step_spec(target, pdf, present, mkdir_done)
    }
}

/// `log` records running the start of `plan`, in order, with every call
/// before the last one that had to succeed having succeeded: a run that may
/// have stopped early, but never went on past a failed call that mattered.
pub open spec fn prefix_run(log: Seq<(Seq<Seq<char>>, bool)>, plan: Seq<(Seq<Seq<char>>, bool)>) -> bool {
    &&& log.len() <= plan.len()
    &&& forall|i: int| 0 <= i < log.len() ==> (#[trigger] log[i]).0 == plan[i].0
    &&& forall|i: int| 0 <= i < log.len() - 1 ==> (#[trigger] plan[i]).1 ==> log[i].1
}

/// A run of the start of a plan is one of any plan that begins with it.
pub proof fn lemma_prefix_run_extend(log: Seq<(Seq<Seq<char>>, bool)>, p: Seq<(Seq<Seq<char>>, bool)>, q: Seq<(Seq<Seq<char>>, bool)>)
    requires
        prefix_run(log, p),
        p.len() <= q.len(),
        q.take(p.len() as int) == p,
    ensures
        prefix_run(log, q),
{
    assert forall|i: int| 0 <= i < log.len() implies (#[trigger] log[i]).0 == q[i].0 by {
        assert(q.take(p.len() as int)[i] == q[i]);
    }
    assert forall|i: int| 0 <= i < log.len() - 1 implies (#[trigger] q[i]).1 ==> log[i].1 by {
        assert(q.take(p.len() as int)[i] == q[i]);
        assert(p[i] == q[i]);
    }
}

/// A completed run followed by a run that stopped is a run of the start of
/// both plans.
pub proof fn lemma_prefix_run_concat(a: Seq<(Seq<Seq<char>>, bool)>, p: Seq<(Seq<Seq<char>>, bool)>, b: Seq<(Seq<Seq<char>>, bool)>, q: Seq<(Seq<Seq<char>>, bool)>, ok: bool)
    requires
        ran_plan(a, p, true),
        ran_plan(b, q, ok),
    ensures
        prefix_run(a + b, p + q),
{
    let l = a + b;
    let pq = p + q;
    assert forall|i: int| 0 <= i < l.len() implies (#[trigger] l[i]).0 == pq[i].0 by {
        if i >= a.len() {
            assert(l[i] == b[i - a.len()]);
            assert(pq[i] == q[i - p.len()]);
        }
    }
    assert forall|i: int| 0 <= i < l.len() - 1 implies (#[trigger] pq[i]).1 ==> l[i].1 by {
        if i >= a.len() {
            assert(l[i] == b[i - a.len()]);
            assert(pq[i] == q[i - p.len()]);
        } else {
            assert(l[i] == a[i]);
            assert(pq[i] == p[i]);
        }
    }
}

/// The plan for the first `n` PDFs is the start of the plan for all of them.
pub proof fn lemma_chosen_plan_prefix(skip_present: bool, target: Seq<char>, pdfs: Seq<Seq<char>>, present: Seq<bool>, n: int)
    requires
        present.len() == pdfs.len(),
        0 <= n <= pdfs.len(),
    ensures
        ({
            let p = chosen_plan(skip_present, target, pdfs.take(n), present.take(n));
            let q = chosen_plan(skip_present, target, pdfs, present);
            p.len() <= q.len() && q.take(p.len() as int) == p
        }),
    decreases pdfs.len(),
{
    let q = chosen_plan(skip_present, target, pdfs, present);
    if n == pdfs.len() {
        assert(pdfs.take(n) =~= pdfs);
        assert(present.take(n) =~= present);
        assert(q.take(q.len() as int) =~= q);
    } else {
        let k = pdfs.len() - 1;
        let pdfs2 = pdfs.drop_last();
        let pres2 = present.take(k);
        lemma_chosen_plan_prefix(skip_present, target, pdfs2, pres2, n);
        assert(pdfs2.take(n) =~= pdfs.take(n));
        assert(pres2.take(n) =~= present.take(n));
        let mid = chosen_plan(skip_present, target, pdfs2, pres2);
        assert(q == mid + chosen_step(skip_present, target, pdfs[k], present[k], any_missing(present, k)));
        let p = chosen_plan(skip_present, target, pdfs.take(n), present.take(n));
        assert(q.take(p.len() as int) =~= mid.take(p.len() as int));
    }
}

/// A run of the plan for the first `i` PDFs is a run of the start of the
/// plan for all of them, for some answers of the remaining probes.
proof fn lemma_prefix_run_of_all(skip_present: bool, target: Seq<char>, pdfs: Seq<Seq<char>>, pres: Seq<bool>, log: Seq<(Seq<Seq<char>>, bool)>, i: int)
    requires
        0 <= i <= pdfs.len(),
        pres.len() == i,
        prefix_run(log, chosen_plan(skip_present, target, pdfs.take(i), pres)),
    ensures
        exists|present: Seq<bool>| present.len() == pdfs.len() && present.take(i) == pres && prefix_run(
            log,
            #[trigger] chosen_plan(skip_present, target, pdfs, present),
        ),
{
    let full = pres + Seq::new((pdfs.len() - i) as nat, |k: int| false);
    assert(full.take(i) =~= pres);
    lemma_chosen_plan_prefix(skip_present, target, pdfs, full, i);
    lemma_prefix_run_extend(log, chosen_plan(skip_present, target, pdfs.take(i), pres), chosen_plan(skip_present, target, pdfs, full));
}

/// The answers of recorded probes.
pub open spec fn probe_answers(probes: Seq<(Seq<char>, bool)>) -> Seq<bool> {
    probes.map_values(|x: (Seq<char>, bool)| x.1)
}

/// The cloud path probed for a PDF: its file stem under the target folder.
pub open spec fn probe_of(target: Seq<char>, pdf: Seq<char>) -> Seq<char> {
    probe_spec(target, path_file_stem(pdf)->Some_0)
}

/// What an upsert (or, with `skip_present`, a create-if-missing) of `pdfs`
/// into `target` did, given the probes it made (each path with its answer)
/// and the calls it handed over (each with whether it succeeded):
/// - one probe per PDF, in order, of the PDF's document under the target,
///   up to where it stopped;
/// - when it succeeded (`ok`), every PDF was probed and the calls are the
///   plan for exactly those answers, each made and each required one
///   succeeded;
/// - when it failed, the calls are the start of the plan for those answers
///   (and some answers for the PDFs it did not reach), ending at the first
///   required call that failed if one did.
pub open spec fn upsert_outcome(
    skip_present: bool,
    target: Seq<char>,
    pdfs: Seq<Seq<char>>,
    probes: Seq<(Seq<char>, bool)>,
    calls: Seq<(Seq<Seq<char>>, bool)>,
    ok: bool,
) -> bool {
    &&& probes.len() <= pdfs.len()
    &&& forall|i: int| 0 <= i < probes.len() ==> path_file_stem(pdfs[i]) is Some && (#[trigger] probes[i]).0 == probe_of(target, pdfs[i])
    &&& ok ==> probes.len() == pdfs.len() && ran_plan(calls, chosen_plan(skip_present, target, pdfs, probe_answers(probes)), true)
    &&& !ok ==> exists|present: Seq<bool>|
        present.len() == pdfs.len() && present.take(probes.len() as int) == probe_answers(probes) && prefix_run(
            calls,
            #[trigger] chosen_plan(skip_present, target, pdfs, present),
        )
}

/// Planning one more PDF appends its step to the plan.
pub proof fn lemma_chosen_plan_push(skip_present: bool, target: Seq<char>, pdfs: Seq<Seq<char>>, present: Seq<bool>, i: int, b: bool)
    requires
        0 <= i < pdfs.len(),
        present.len() == i,
    ensures
        chosen_plan(skip_present, target, pdfs.take(i + 1), present.push(b)) == chosen_plan(skip_present, target, pdfs.take(i), present)
            + chosen_step(skip_present, target, pdfs[i], b, any_missing(present, i)),
{
    let p2 = present.push(b);
    assert(pdfs.take(i + 1).drop_last() =~= pdfs.take(i));
    assert(p2.take(i) =~= present);
    assert(any_missing(p2, i) == any_missing(present, i)) by {
        if any_missing(p2, i) {
            let j = choose|j: int| 0 <= j < i && !p2[j];
            assert(present[j] == p2[j]);
        }
        if any_missing(present, i) {
            let j = choose|j: int| 0 <= j < i && !present[j];
            assert(present[j] == p2[j]);
        }
    }
}

/// The cloud path upsert probes for a PDF whose file stem is `stem`: the stem
/// under the target folder (rmapi names documents after the file stem).
pub open spec fn probe_spec(target: Seq<char>, stem: Seq<char>) -> Seq<char> {
    if target == "/"@ {
        seq!['/'] + stem
    } else {
        trim_end_char(target, '/') + seq!['/'] + stem
    }
}

/// The character views of a list of string slices.
pub open spec fn str_views(a: Seq<&str>) -> Seq<Seq<char>> {
    a.map_values(|s: &str| s@)
}

/// `log` records running the planned calls `plan` in order, as a deploy
/// does: each call's arguments are the plan's, a failure of a call that must
/// succeed ends the run (`ok` false) right after it, and the run completes
/// (`ok` true) only when every call was made and each one that must succeed
/// did.
pub open spec fn ran_plan(log: Seq<(Seq<Seq<char>>, bool)>, plan: Seq<(Seq<Seq<char>>, bool)>, ok: bool) -> bool {
    &&& log.len() <= plan.len()
    &&& forall|i: int| 0 <= i < log.len() ==> (#[trigger] log[i]).0 == plan[i].0
    &&& ok ==> log.len() == plan.len() && forall|i: int| 0 <= i < log.len() ==> (#[trigger] plan[i]).1 ==> log[i].1
    &&& !ok ==> {
        &&& log.len() >= 1
        &&& plan[log.len() - 1].1 && !log[log.len() - 1].1
        &&& forall|i: int| 0 <= i < log.len() - 1 ==> (#[trigger] plan[i]).1 ==> log[i].1
    }
}

/// Whether `after` is `before` with more entries appended.
pub open spec fn extends<A>(before: Seq<A>, after: Seq<A>) -> bool {
    before.len() <= after.len() && after.take(before.len() as int) == before
}

/// Completed runs of two plans in turn make a completed run of both.
pub proof fn lemma_ran_plan_concat(a: Seq<(Seq<Seq<char>>, bool)>, p: Seq<(Seq<Seq<char>>, bool)>, b: Seq<(Seq<Seq<char>>, bool)>, q: Seq<(Seq<Seq<char>>, bool)>)
    requires
        ran_plan(a, p, true),
        ran_plan(b, q, true),
    ensures
        ran_plan(a + b, p + q, true),
{
    let l = a + b;
    let pq = p + q;
    assert forall|i: int| 0 <= i < l.len() implies (#[trigger] l[i]).0 == pq[i].0 by {
        if i >= a.len() {
            assert(l[i] == b[i - a.len()]);
            assert(pq[i] == q[i - p.len()]);
        }
    }
    assert forall|i: int| 0 <= i < l.len() implies (#[trigger] pq[i]).1 ==> l[i].1 by {
        if i >= a.len() {
            assert(l[i] == b[i - a.len()]);
            assert(pq[i] == q[i - p.len()]);
        } else {
            assert(l[i] == a[i]);
            assert(pq[i] == p[i]);
        }
    }
}

/// Whether no planned call has to succeed (every failure is ignored).
pub open spec fn none_must_succeed(cs: Seq<(Seq<Seq<char>>, bool)>) -> bool {
    forall|i: int| 0 <= i < cs.len() ==> !(#[trigger] cs[i]).1
}

/// Failures of the folder chain's `mkdir` calls are always ignored.
pub proof fn lemma_mkdir_plan_optional(target: Seq<char>)
    ensures
        none_must_succeed(mkdir_plan(target)),
{
}

/// Whether every planned call is non-interactive (starts with `-ni`).
pub open spec fn all_non_interactive(cs: Seq<(Seq<Seq<char>>, bool)>) -> bool {
    forall|i: int| 0 <= i < cs.len() ==> (#[trigger] cs[i]).0.len() >= 1 && cs[i].0[0] == "-ni"@
}

/// Runs a single `rmapi` subcommand. Abstracted so the deploy/refresh command
/// sequences are testable without shelling out to the real binary.
pub trait RmapiRunner {
    /// Whether this runner keeps `runs`: an implementation that answers
    /// `true` promises (and, when verified, proves) that every `run` appends
    /// the call it received to `runs`. The default answers `false`, which
    /// promises nothing.
    open spec fn keeps_history() -> bool {
        false
    }

    /// The `run` calls this runner has received so far, in order, each with
    /// whether it succeeded (meaningful when `keeps_history`).
    open spec fn runs(&self) -> Seq<(Seq<Seq<char>>, bool)> {
        Seq::empty()
    }

    /// The document probes this runner has answered so far, in order: each
    /// path with the answer (`None` for a failed probe; meaningful when
    /// `keeps_history`).
    open spec fn probes(&self) -> Seq<(Seq<char>, Option<bool>)> {
        Seq::empty()
    }

    /// Run `rmapi <args...>`; `args` never includes the binary name. Every
    /// call passes `-ni` first, so rmapi never blocks on its pairing prompt.
    fn run(&mut self, args: &[&str]) -> (r: Result<(), DeployError>)
        requires
            args@.len() >= 1,
            args@[0]@ == "-ni"@,
        ensures
            Self::keeps_history() ==> final(self).runs() == old(self).runs().push((str_views(args@), r is Ok))
                && final(self).probes() == old(self).probes(),
    ;

    /// Probe whether a document exists at the given cloud path (the process
    /// runner asks `rmapi stat`; a runner with no cloud to ask answers
    /// `Ok(false)`).
    fn doc_exists(&mut self, path: &str) -> (r: Result<bool, DeployError>)
        ensures
            Self::keeps_history() ==> final(self).probes() == old(self).probes().push((path@, probe_answer(r)))
                && final(self).runs() == old(self).runs(),
    ;
}

/// A probe's answer as a runner records it: `None` when the probe failed.
pub open spec fn probe_answer(r: Result<bool, DeployError>) -> Option<bool> {
    match r {
        Ok(b) => Some(b),
        Err(_) => None,
    }
}

/// Probes made, as a runner records their (successful) answers.
pub open spec fn probe_record(probes: Seq<(Seq<char>, bool)>) -> Seq<(Seq<char>, Option<bool>)> {
    probes.map_values(|x: (Seq<char>, bool)| (x.0, Some(x.1)))
}

/// `after` is `before` with `made` appended, or, when `failed`, with `made`
/// and then one failed probe appended.
pub open spec fn asked_after(before: Seq<(Seq<char>, Option<bool>)>, after: Seq<(Seq<char>, Option<bool>)>, made: Seq<(Seq<char>, bool)>, failed: bool) -> bool {
    ||| after == before + probe_record(made)
    ||| failed && after.len() == before.len() + made.len() + 1 && after.take((before.len() + made.len()) as int) == before
        + probe_record(made) && after.last().1 is None
}

/// What a process runner does after an rmapi call failed.
#[derive(Debug, Clone, Copy, PartialEq, Eq, Structural)]
pub enum AfterFailedRun {
    /// Restore the conf snapshot and try the call once more.
    RestoreAndRetry,
    /// Give up with the failure.
    Fail,
}

/// rmapi can zero its own conf on a transient failure: when a first attempt
/// failed and the conf is now blank, restore the snapshot and retry once;
/// otherwise the failure stands.
pub fn after_failed_run(conf_blanked: bool, retried: bool) -> (r: AfterFailedRun)
    ensures
        r == (if conf_blanked && !retried {
            AfterFailedRun::RestoreAndRetry
        } else {
            AfterFailedRun::Fail
        }),
{
    if conf_blanked && !retried {
        AfterFailedRun::RestoreAndRetry
    } else {
        AfterFailedRun::Fail
    }
}

/// A document name for a path: `Path::file_stem` of it.
pub uninterp spec fn path_file_stem(path: Seq<char>) -> Option<Seq<char>>;

/// `std::path::Path::new(path).file_stem()`, as a string. The contract only ties
/// the result to the path through `path_file_stem`; what the stem is (the
/// final component up to its last `.`) is std's to decide.
#[verifier::external_body]
fn file_stem(path: &str) -> (r: Option<String>)
    ensures
        match r {
            Some(s) => path_file_stem(path@) == Some(s@),
            None => path_file_stem(path@) is None,
        },
{
    std::path::Path::new(path).file_stem().and_then(|s| s.to_str()).map(|s| s.to_string())
}

/// The cloud path of the document named `stem` in `target`.
pub fn probe_path(target: &str, stem: &str) -> (r: String)
    ensures
        r@ == probe_spec(target@, stem@),
{
    let v = chars_of(target);
    proof {
        reveal_strlit("/");
    }
    let mut out = String::new();
    if v.len() == 1 && v[0] == '/' {
        assert(target@ == "/"@);
        push_char(&mut out, '/');
    } else {
        assert(target@ != "/"@);
        let mut h: usize = v.len();
        assert(v@.take(v@.len() as int) == v@);
        while h > 0 && v[h - 1] == '/'
            invariant
                h <= v@.len(),
                v@ == target@,
                trim_end_char(v@.take(h as int), '/') == trim_end_char(v@, '/'),
            decreases h,
        {
            assert(v@.take(h as int).drop_last() == v@.take(h - 1));
            h = h - 1;
        }
        assert(trim_end_char(v@.take(h as int), '/') == v@.take(h as int));
        let base = string_from(&v, 0, h);
        assert(v@.subrange(0, h as int) == v@.take(h as int));
        push_str(&mut out, base.as_str());
        push_char(&mut out, '/');
    }
    push_str(&mut out, stem);
    out
}

fn lit(s: &str) -> (r: String)
    ensures
        r@ == s@,
{
    String::from_str(s)
}

/// Every call of a planned `put` or `mkdir` starts with `-ni`.
pub proof fn lemma_mkdir_plan_non_interactive(target: Seq<char>)
    ensures
        all_non_interactive(mkdir_plan(target)),
{
}

/// Every call of an upsert or create-if-missing step starts with `-ni`.
pub proof fn lemma_steps_non_interactive(target: Seq<char>, pdf: Seq<char>, present: bool, mkdir_done: bool)
    ensures
        all_non_interactive(upsert_step_spec(target, pdf, present, mkdir_done)),
        all_non_interactive(create_step_spec(target, pdf, present, mkdir_done)),
{
    let m = mkdir_plan(target);
    let p = seq![(put_cmd(pdf, target, false), true)];
    assert(all_non_interactive(m + p)) by {
        assert forall|i: int| 0 <= i < (m + p).len() implies (#[trigger] (m + p)[i]).0.len() >= 1 && (m + p)[i].0[0] == "-ni"@ by {
            if i < m.len() {
                assert((m + p)[i] == m[i]);
            } else {
                assert((m + p)[i] == p[i - m.len()]);
            }
        }
    }
}

/// Every call of a first upload and of a refresh starts with `-ni`.
pub proof fn lemma_deploy_refresh_non_interactive(target: Seq<char>, pdfs: Seq<Seq<char>>)
    ensures
        all_non_interactive(deploy_plan(target, pdfs)),
        all_non_interactive(refresh_plan(target, pdfs)),
{
    let m = mkdir_plan(target);
    let p = pdfs.map_values(|q: Seq<char>| (put_cmd(q, target, false), true));
    assert forall|i: int| 0 <= i < (m + p).len() implies (#[trigger] (m + p)[i]).0.len() >= 1 && (m + p)[i].0[0] == "-ni"@ by {
        if i < m.len() {
            assert((m + p)[i] == m[i]);
        } else {
            assert((m + p)[i] == p[i - m.len()]);
        }
    }
}

proof fn lemma_upsert_all_present(target: Seq<char>, pdfs: Seq<Seq<char>>, present: Seq<bool>)
    requires
        present.len() == pdfs.len(),
        forall|i: int| 0 <= i < present.len() ==> present[i],
    ensures
        upsert_plan(target, pdfs, present) == refresh_plan(target, pdfs),
        create_plan(target, pdfs, present) == Seq::<(Seq<Seq<char>>, bool)>::empty(),
    decreases pdfs.len(),
{
    if pdfs.len() > 0 {
        let k = pdfs.len() - 1;
        lemma_upsert_all_present(target, pdfs.drop_last(), present.take(k));
        assert(refresh_plan(target, pdfs) =~= refresh_plan(target, pdfs.drop_last()).push(
            (put_cmd(pdfs[k], target, true), true),
        ));
        assert(create_plan(target, pdfs, present) =~= Seq::<(Seq<Seq<char>>, bool)>::empty());
    } else {
        assert(refresh_plan(target, pdfs) =~= Seq::empty());
    }
}

proof fn lemma_upsert_none_present(target: Seq<char>, pdfs: Seq<Seq<char>>, present: Seq<bool>)
    requires
        pdfs.len() > 0,
        present.len() == pdfs.len(),
        forall|i: int| 0 <= i < present.len() ==> !present[i],
    ensures
        upsert_plan(target, pdfs, present) == deploy_plan(target, pdfs),
        create_plan(target, pdfs, present) == deploy_plan(target, pdfs),
    decreases pdfs.len(),
{
    let k = pdfs.len() - 1;
    let put = (put_cmd(pdfs[k], target, false), true);
    if k == 0 {
        assert(!any_missing(present, 0));
        assert(upsert_plan(target, pdfs.drop_last(), present.take(k)) =~= Seq::empty());
        assert(create_plan(target, pdfs.drop_last(), present.take(k)) =~= Seq::empty());
        assert(deploy_plan(target, pdfs) =~= mkdir_plan(target) + seq![put]);
        assert(Seq::<(Seq<Seq<char>>, bool)>::empty() + (mkdir_plan(target) + seq![put]) =~= mkdir_plan(target) + seq![put]);
    } else {
        lemma_upsert_none_present(target, pdfs.drop_last(), present.take(k));
        assert(!present[0]);
        assert(any_missing(present, k));
        assert(deploy_plan(target, pdfs) =~= deploy_plan(target, pdfs.drop_last()).push(put));
    }
}

/// Upsert on documents that all exist already is exactly a refresh (one
/// content-only `put` each, no `mkdir`), and create-if-missing then does
/// nothing; when none exists yet, both are exactly a first upload (the folder
/// chain, then a plain `put` each). The second half needs at least one PDF: on
/// an empty list a first upload still creates the folders, while upsert makes
/// no call.
pub proof fn law_upsert_matches_refresh_and_deploy(target: Seq<char>, pdfs: Seq<Seq<char>>, present: Seq<bool>)
    requires
        present.len() == pdfs.len(),
    ensures
        (forall|i: int| 0 <= i < present.len() ==> present[i]) ==> upsert_plan(target, pdfs, present)
            == refresh_plan(target, pdfs) && create_plan(target, pdfs, present) == Seq::<
            (Seq<Seq<char>>, bool),
        >::empty(),
        (pdfs.len() > 0 && forall|i: int| 0 <= i < present.len() ==> !present[i]) ==> upsert_plan(
            target,
            pdfs,
            present,
        ) == deploy_plan(target, pdfs) && create_plan(target, pdfs, present) == deploy_plan(
            target,
            pdfs,
        ),
{
    if forall|i: int| 0 <= i < present.len() ==> present[i] {
        lemma_upsert_all_present(target, pdfs, present);
    }
    if pdfs.len() > 0 && forall|i: int| 0 <= i < present.len() ==> !present[i] {
        lemma_upsert_none_present(target, pdfs, present);
    }
}

/// Number of `mkdir` calls among `cs`.
pub open spec fn mkdir_count(cs: Seq<(Seq<Seq<char>>, bool)>) -> nat
    decreases cs.len(),
{
    if cs.len() == 0 {
        0
    } else {
        mkdir_count(cs.drop_last()) + if cs.last().0.len() > 1 && cs.last().0[1] == "mkdir"@ {
            1nat
        } else {
            0nat
        }
    }
}

proof fn lemma_mkdir_count_concat(a: Seq<(Seq<Seq<char>>, bool)>, b: Seq<(Seq<Seq<char>>, bool)>)
    ensures
        mkdir_count(a + b) == mkdir_count(a) + mkdir_count(b),
    decreases b.len(),
{
    if b.len() == 0 {
        assert(a + b =~= a);
    } else {
        lemma_mkdir_count_concat(a, b.drop_last());
        assert((a + b).drop_last() =~= a + b.drop_last());
        assert((a + b).last() == b.last());
    }
}

proof fn lemma_mkdir_count_plan(target: Seq<char>, k: int)
    requires
        0 <= k <= mkdir_plan(target).len(),
    ensures
        mkdir_count(mkdir_plan(target).take(k)) == k,
    decreases k,
{
    reveal_strlit("mkdir");
    if k > 0 {
        lemma_mkdir_count_plan(target, k - 1);
        assert(mkdir_plan(target).take(k).drop_last() =~= mkdir_plan(target).take(k - 1));
    }
}

proof fn lemma_put_not_mkdir(pdf: Seq<char>, target: Seq<char>, content_only: bool)
    ensures
        mkdir_count(seq![(put_cmd(pdf, target, content_only), true)]) == 0,
{
    reveal_strlit("mkdir");
    reveal_strlit("put");
    let s = seq![(put_cmd(pdf, target, content_only), true)];
    assert("put"@[0] != "mkdir"@[0]);
    assert(s.drop_last() =~= Seq::<(Seq<Seq<char>>, bool)>::empty());
    assert(mkdir_count(s.drop_last()) == 0);
    assert(s.last().0[1] == "put"@);
}

proof fn lemma_step_mkdir_count(target: Seq<char>, pdf: Seq<char>, present: bool, mkdir_done: bool)
    ensures
        mkdir_count(upsert_step_spec(target, pdf, present, mkdir_done)) == if !present && !mkdir_done {
            folder_chain_spec(target).len()
        } else {
            0
        },
        mkdir_count(create_step_spec(target, pdf, present, mkdir_done)) == if !present && !mkdir_done {
            folder_chain_spec(target).len()
        } else {
            0
        },
{
    reveal_strlit("mkdir");
    reveal_strlit("put");
    let m = mkdir_plan(target);
    let p = seq![(put_cmd(pdf, target, false), true)];
    lemma_put_not_mkdir(pdf, target, false);
    lemma_put_not_mkdir(pdf, target, true);
    lemma_mkdir_count_plan(target, m.len() as int);
    assert(m.take(m.len() as int) =~= m);
    lemma_mkdir_count_concat(m, p);
    assert(mkdir_count(Seq::<(Seq<Seq<char>>, bool)>::empty()) == 0);
}

/// Upsert and create-if-missing create the target's folders at most once: the
/// folder chain runs once, with the first document found missing, and not at
/// all when every document is present.
#[verifier::spinoff_prover]
pub proof fn law_folders_created_once(target: Seq<char>, pdfs: Seq<Seq<char>>, present: Seq<bool>)
    requires
        present.len() == pdfs.len(),
    ensures
        mkdir_count(upsert_plan(target, pdfs, present)) == if any_missing(present, pdfs.len() as int) {
            folder_chain_spec(target).len()
        } else {
            0
        },
        mkdir_count(create_plan(target, pdfs, present)) == if any_missing(present, pdfs.len() as int) {
            folder_chain_spec(target).len()
        } else {
            0
        },
    decreases pdfs.len(),
{
    if pdfs.len() > 0 {
        let k = pdfs.len() - 1;
        let pre = present.take(k);
        law_folders_created_once(target, pdfs.drop_last(), pre);
        assert(any_missing(pre, k) == any_missing(present, k)) by {
            if any_missing(pre, k) {
                let i = choose|i: int| 0 <= i < k && !pre[i];
                assert(pre[i] == present[i]);
            }
            if any_missing(present, k) {
                let i = choose|i: int| 0 <= i < k && !present[i];
                assert(pre[i] == present[i]);
            }
        }
        assert(any_missing(present, k + 1) == (any_missing(present, k) || !present[k])) by {
            if any_missing(present, k + 1) && !present[k] {
            } else if any_missing(present, k + 1) {
                let i = choose|i: int| 0 <= i < k + 1 && !present[i];
                assert(i < k);
            }
        }
        lemma_step_mkdir_count(target, pdfs[k], present[k], any_missing(present, k));
        lemma_mkdir_count_concat(
            upsert_plan(target, pdfs.drop_last(), pre),
            upsert_step_spec(target, pdfs[k], present[k], any_missing(present, k)),
        );
        lemma_mkdir_count_concat(
            create_plan(target, pdfs.drop_last(), pre),
            create_step_spec(target, pdfs[k], present[k], any_missing(present, k)),
        );
    } else {
        assert(!any_missing(present, 0));
    }
}

/// A call create-if-missing may make: a `mkdir` of a folder of the target's
/// chain, or a plain `put` of a PDF whose document was not found.
pub open spec fn create_call_ok(c: (Seq<Seq<char>>, bool), target: Seq<char>, pdfs: Seq<Seq<char>>, present: Seq<bool>) -> bool {
    ||| exists|d: int| 0 <= d < folder_chain_spec(target).len() && c == (mkdir_cmd(#[trigger] folder_chain_spec(target)[d]), false)
    ||| exists|i: int| 0 <= i < pdfs.len() && !present[i] && c == (put_cmd(#[trigger] pdfs[i], target, false), true)
}

/// Create-if-missing never touches a document that exists: every call it
/// plans creates a folder of the target or plainly `put`s (never
/// content-only) a PDF whose document was not found.
#[verifier::spinoff_prover]
pub proof fn law_create_puts_only_absent(target: Seq<char>, pdfs: Seq<Seq<char>>, present: Seq<bool>)
    requires
        present.len() == pdfs.len(),
    ensures
        forall|j: int| 0 <= j < create_plan(target, pdfs, present).len()
            ==> create_call_ok(#[trigger] create_plan(target, pdfs, present)[j], target, pdfs, present),
    decreases pdfs.len(),
{
    if pdfs.len() > 0 {
        let k = pdfs.len() - 1;
        let head = create_plan(target, pdfs.drop_last(), present.take(k));
        let step = create_step_spec(target, pdfs[k], present[k], any_missing(present, k));
        law_create_puts_only_absent(target, pdfs.drop_last(), present.take(k));
        let plan = create_plan(target, pdfs, present);
        assert(plan == head + step);
        assert forall|j: int| 0 <= j < plan.len() implies create_call_ok(#[trigger] plan[j], target, pdfs, present) by {
            if j < head.len() {
                assert(plan[j] == head[j]);
                assert(create_call_ok(head[j], target, pdfs.drop_last(), present.take(k)));
                if exists|i: int| 0 <= i < k && !present.take(k)[i] && head[j] == (put_cmd(#[trigger] pdfs.drop_last()[i], target, false), true) {
                    let i = choose|i: int| 0 <= i < k && !present.take(k)[i] && head[j] == (put_cmd(#[trigger] pdfs.drop_last()[i], target, false), true);
                    assert(pdfs.drop_last()[i] == pdfs[i]);
                    assert(present.take(k)[i] == present[i]);
                }
            } else {
                let s = j - head.len();
                assert(plan[j] == step[s]);
                let m = mkdir_plan(target);
                if !present[k] && !any_missing(present, k) {
                    let p = seq![(put_cmd(pdfs[k], target, false), true)];
                    assert(step == m + p);
                    if s < m.len() {
                        assert(step[s] == m[s]);
                        assert(m[s] == (mkdir_cmd(folder_chain_spec(target)[s]), false));
                    } else {
                        assert(step[s] == p[s - m.len()]);
                    }
                }
            }
        }
    }
}

/// Uploads / refreshes a year of PDFs via an [`RmapiRunner`].
pub struct RmapiDeployer<R: RmapiRunner> {
    target_folder: String,
    runner: R,
    /// Every call handed to the runner so far: its arguments and whether it
    /// succeeded.
    sent: Ghost<Seq<(Seq<Seq<char>>, bool)>>,
    /// Every document probe made so far: the cloud path and its answer.
    probed: Ghost<Seq<(Seq<char>, bool)>>,
}

impl<R: RmapiRunner> RmapiDeployer<R> {
    /// A deployer for the cloud folder `target_folder`.
    pub fn new(target_folder: String, runner: R) -> (d: Self)
        ensures
            d.target()@ == target_folder@,
            d.held_runner() == runner,
            d.sent().len() == 0,
            d.probed().len() == 0,
    {
        Self { target_folder, runner, sent: Ghost(Seq::empty()), probed: Ghost(Seq::empty()) }
    }

    /// The cloud folder this deployer uploads into.
    pub closed spec fn target(&self) -> String {
        self.target_folder
    }

    /// The runner this deployer hands its calls to.
    pub closed spec fn held_runner(&self) -> R {
        self.runner
    }

    /// The calls this deployer has handed to its runner so far, in order,
    /// each with whether it succeeded.
    pub closed spec fn sent(&self) -> Seq<(Seq<Seq<char>>, bool)> {
        self.sent@
    }

    /// The document probes this deployer has made so far, in order: each
    /// cloud path with the runner's answer.
    pub closed spec fn probed(&self) -> Seq<(Seq<char>, bool)> {
        self.probed@
    }

    /// The `run` calls the runner has received, as the runner keeps them
    /// (see `RmapiRunner::keeps_history`).
    pub open spec fn received(&self) -> Seq<(Seq<Seq<char>>, bool)> {
        self.held_runner().runs()
    }

    /// The document probes the runner has answered, as the runner keeps them.
    pub open spec fn asked(&self) -> Seq<(Seq<char>, Option<bool>)> {
        self.held_runner().probes()
    }

    /// The runner this deployer hands its calls to.
    pub fn runner(&self) -> (r: &R)
        ensures
            *r == self.held_runner(),
    {
        &self.runner
    }

    /// Build the `put` arg vector. `-ni` keeps rmapi non-interactive so it never
    /// blocks on (or clobbers its conf via) the pairing prompt.
    pub fn put_args(&self, pdf: &str, content_only: bool) -> (a: Vec<String>)
        ensures
            views(a@) == put_cmd(pdf@, self.target()@, content_only),
    {
        let mut a: Vec<String> = Vec::new();
        a.push(lit("-ni"));
        a.push(lit("put"));
        if content_only {
            a.push(lit("--content-only"));
        }
        a.push(lit(pdf));
        a.push(self.target_folder.clone());
        assert(views(a@) =~= put_cmd(pdf@, self.target()@, content_only));
        a
    }

    fn mkdir_calls(&self) -> (cs: Vec<RmapiCall>)
        ensures
            calls_view(cs@) == mkdir_plan(self.target()@),
    {
        let chain = folder_chain(self.target_folder.as_str());
        let mut cs: Vec<RmapiCall> = Vec::new();
        let mut i: usize = 0;
        while i < chain.len()
            invariant
                i <= chain@.len(),
                chain@.len() == folder_chain_spec(self.target()@).len(),
                forall|k: int| 0 <= k < chain@.len() ==> (#[trigger] chain@[k])@ == folder_chain_spec(self.target()@)[k],
                calls_view(cs@) == mkdir_plan(self.target()@).take(i as int),
            decreases chain@.len() - i,
        {
            let mut args: Vec<String> = Vec::new();
            args.push(lit("-ni"));
            args.push(lit("mkdir"));
            args.push(chain[i].clone());
            let c = RmapiCall { args, must_succeed: false };
            assert(call_view(c) == mkdir_plan(self.target()@)[i as int]) by {
                assert(views(c.args@) =~= mkdir_cmd(folder_chain_spec(self.target()@)[i as int]));
            }
            let ghost old_cs = cs@;
            cs.push(c);
            assert(calls_view(cs@) =~= calls_view(old_cs).push(call_view(c)));
            assert(mkdir_plan(self.target()@).take(i + 1) =~= mkdir_plan(self.target()@).take(i as int).push(mkdir_plan(self.target()@)[i as int]));
            i = i + 1;
        }
        assert(mkdir_plan(self.target()@).take(i as int) =~= mkdir_plan(self.target()@));
        cs
    }

    fn put_call(&self, pdf: &str, content_only: bool) -> (c: RmapiCall)
        ensures
            call_view(c) == (put_cmd(pdf@, self.target()@, content_only), true),
    {
        RmapiCall { args: self.put_args(pdf, content_only), must_succeed: true }
    }

    /// The calls of a first upload of `pdfs`.
    pub fn deploy_calls(&self, pdfs: &[String]) -> (cs: Vec<RmapiCall>)
        ensures
            calls_view(cs@) == deploy_plan(self.target()@, views(pdfs@)),
    {
        let mut cs = self.mkdir_calls();
        let ghost m = calls_view(cs@);
        let mut i: usize = 0;
        while i < pdfs.len()
            invariant
                i <= pdfs@.len(),
                m == mkdir_plan(self.target()@),
                calls_view(cs@) == m + views(pdfs@).take(i as int).map_values(
                    |p: Seq<char>| (put_cmd(p, self.target()@, false), true),
                ),
            decreases pdfs@.len() - i,
        {
            let c = self.put_call(pdfs[i].as_str(), false);
            let ghost old_cs = cs@;
            cs.push(c);
            assert(calls_view(cs@) =~= calls_view(old_cs).push(call_view(c)));
            assert(views(pdfs@).take(i + 1) =~= views(pdfs@).take(i as int).push(pdfs@[i as int]@));
            i = i + 1;
        }
        assert(views(pdfs@).take(i as int) =~= views(pdfs@));
        cs
    }

    /// The calls of a content-only refresh of `pdfs`.
    pub fn refresh_calls(&self, pdfs: &[String]) -> (cs: Vec<RmapiCall>)
        ensures
            calls_view(cs@) == refresh_plan(self.target()@, views(pdfs@)),
    {
        let mut cs: Vec<RmapiCall> = Vec::new();
        let mut i: usize = 0;
        while i < pdfs.len()
            invariant
                i <= pdfs@.len(),
                calls_view(cs@) == views(pdfs@).take(i as int).map_values(
                    |p: Seq<char>| (put_cmd(p, self.target()@, true), true),
                ),
            decreases pdfs@.len() - i,
        {
            let c = self.put_call(pdfs[i].as_str(), true);
            let ghost old_cs = cs@;
            cs.push(c);
            assert(calls_view(cs@) =~= calls_view(old_cs).push(call_view(c)));
            assert(views(pdfs@).take(i + 1) =~= views(pdfs@).take(i as int).push(pdfs@[i as int]@));
            i = i + 1;
        }
        assert(views(pdfs@).take(i as int) =~= views(pdfs@));
        cs
    }

    /// The upsert calls for one PDF (see `upsert_step_spec`).
    pub fn upsert_step(&self, pdf: &str, present: bool, mkdir_done: bool) -> (cs: Vec<RmapiCall>)
        ensures
            calls_view(cs@) == upsert_step_spec(self.target()@, pdf@, present, mkdir_done),
    {
        if present {
            let c = self.put_call(pdf, true);
            let cs = vec![c];
            assert(calls_view(cs@) =~= seq![call_view(c)]);
            cs
        } else {
            let mut cs = if mkdir_done {
                Vec::new()
            } else {
                self.mkdir_calls()
            };
            let ghost old_cs = cs@;
            let c = self.put_call(pdf, false);
            cs.push(c);
            assert(calls_view(cs@) =~= calls_view(old_cs).push(call_view(c)));
            assert(calls_view(Seq::<RmapiCall>::empty()) =~= Seq::empty());
            cs
        }
    }

    /// Upload each PDF, choosing per-file between "create" (`put`) and "replace
    /// content" (`put --content-only`) so existing on-device handwriting is
    /// preserved when the doc already exists. rmapi names the cloud doc after
    /// the PDF's file stem, so the existence probe checks `<target>/<stem>`;
    /// the mkdir chain runs lazily on the first miss. The calls for each PDF
    /// are exactly `upsert_step` of its probe answer.
    pub fn upsert(&mut self, pdfs: &[String]) -> (r: Result<(), DeployError>)
        ensures
            r is Ok ==> forall|i: int| 0 <= i < pdfs@.len() ==> path_file_stem(
                (#[trigger] pdfs@[i])@,
            ) is Some,
            pdfs@.len() == 0 ==> r is Ok,
            pdfs@.len() > 0 && path_file_stem(pdfs@[0]@) is None ==> (r matches Err(
                DeployError::NoFileStem(p),
            ) && p@ == pdfs@[0]@),
            final(self).target() == old(self).target(),
            extends(old(self).sent(), final(self).sent()),
            extends(old(self).probed(), final(self).probed()),
            upsert_outcome(
                false,
                old(self).target()@,
                views(pdfs@),
                final(self).probed().skip(old(self).probed().len() as int),
                final(self).sent().skip(old(self).sent().len() as int),
                r is Ok,
            ),
            R::keeps_history() ==> final(self).received() == old(self).received() + final(self).sent().skip(
                old(self).sent().len() as int,
            ),
            R::keeps_history() ==> asked_after(
                old(self).asked(),
                final(self).asked(),
                final(self).probed().skip(old(self).probed().len() as int),
                r is Err,
            ),
    {
        self.upsert_or_create(pdfs, false)
    }

    /// Upload only the PDFs whose documents are not yet in the cloud (plain
    /// `put`, mkdir chain first on the first miss); documents that exist are
    /// left alone. The calls for each PDF are exactly `create_step` of its
    /// probe answer.
    pub fn create_if_missing(&mut self, pdfs: &[String]) -> (r: Result<(), DeployError>)
        ensures
            r is Ok ==> forall|i: int| 0 <= i < pdfs@.len() ==> path_file_stem(
                (#[trigger] pdfs@[i])@,
            ) is Some,
            pdfs@.len() == 0 ==> r is Ok,
            pdfs@.len() > 0 && path_file_stem(pdfs@[0]@) is None ==> (r matches Err(
                DeployError::NoFileStem(p),
            ) && p@ == pdfs@[0]@),
            final(self).target() == old(self).target(),
            extends(old(self).sent(), final(self).sent()),
            extends(old(self).probed(), final(self).probed()),
            upsert_outcome(
                true,
                old(self).target()@,
                views(pdfs@),
                final(self).probed().skip(old(self).probed().len() as int),
                final(self).sent().skip(old(self).sent().len() as int),
                r is Ok,
            ),
            R::keeps_history() ==> final(self).received() == old(self).received() + final(self).sent().skip(
                old(self).sent().len() as int,
            ),
            R::keeps_history() ==> asked_after(
                old(self).asked(),
                final(self).asked(),
                final(self).probed().skip(old(self).probed().len() as int),
                r is Err,
            ),
    {
        self.upsert_or_create(pdfs, true)
    }

    /// The create-if-missing calls for one PDF (see `create_step_spec`).
    pub fn create_step(&self, pdf: &str, present: bool, mkdir_done: bool) -> (cs: Vec<RmapiCall>)
        ensures
            calls_view(cs@) == create_step_spec(self.target()@, pdf@, present, mkdir_done),
    {
        if present {
            let cs: Vec<RmapiCall> = Vec::new();
            assert(calls_view(cs@) =~= Seq::empty());
            cs
        } else {
            self.upsert_step(pdf, present, mkdir_done)
        }
    }

    fn upsert_or_create(&mut self, pdfs: &[String], skip_present: bool) -> (r: Result<(), DeployError>)
        ensures
            r is Ok ==> forall|i: int| 0 <= i < pdfs@.len() ==> path_file_stem(
                (#[trigger] pdfs@[i])@,
            ) is Some,
            pdfs@.len() == 0 ==> r is Ok,
            pdfs@.len() > 0 && path_file_stem(pdfs@[0]@) is None ==> (r matches Err(
                DeployError::NoFileStem(p),
            ) && p@ == pdfs@[0]@),
            final(self).target() == old(self).target(),
            extends(old(self).sent(), final(self).sent()),
            extends(old(self).probed(), final(self).probed()),
            upsert_outcome(
                skip_present,
                old(self).target()@,
                views(pdfs@),
                final(self).probed().skip(old(self).probed().len() as int),
                final(self).sent().skip(old(self).sent().len() as int),
                r is Ok,
            ),
            R::keeps_history() ==> final(self).received() == old(self).received() + final(self).sent().skip(
                old(self).sent().len() as int,
            ),
            R::keeps_history() ==> asked_after(
                old(self).asked(),
                final(self).asked(),
                final(self).probed().skip(old(self).probed().len() as int),
                r is Err,
            ),
    {
        let ghost s0 = self.sent();
        let ghost p0 = self.probed();
        let ghost r0 = self.received();
        let ghost q0 = self.asked();
        let ghost t0 = self.target();
        let ghost v = views(pdfs@);
        let ghost mut pres: Seq<bool> = Seq::empty();
        let mut mkdir_done = false;
        let mut i: usize = 0;
        proof {
            assert(v.take(0) =~= Seq::<Seq<char>>::empty());
            assert(self.sent().skip(s0.len() as int) =~= Seq::<(Seq<Seq<char>>, bool)>::empty());
            assert(self.sent().take(s0.len() as int) =~= s0);
            assert(self.probed().skip(p0.len() as int) =~= Seq::<(Seq<char>, bool)>::empty());
            assert(self.probed().take(p0.len() as int) =~= p0);
            assert(probe_answers(Seq::<(Seq<char>, bool)>::empty()) =~= pres);
            assert(r0 + self.sent().skip(s0.len() as int) =~= r0);
            assert(q0 + probe_record(self.probed().skip(p0.len() as int)) =~= q0);
        }
        while i < pdfs.len()
            invariant
                i <= pdfs@.len(),
                v == views(pdfs@),
                forall|k: int| 0 <= k < i ==> path_file_stem((#[trigger] pdfs@[k])@) is Some,
                self.target() == t0,
                extends(s0, self.sent()),
                extends(p0, self.probed()),
                s0 == old(self).sent(),
                p0 == old(self).probed(),
                r0 == old(self).received(),
                t0 == old(self).target(),
                pres.len() == i,
                self.probed().skip(p0.len() as int).len() == i,
                probe_answers(self.probed().skip(p0.len() as int)) == pres,
                forall|k: int| 0 <= k < i ==> (#[trigger] self.probed().skip(p0.len() as int)[k]).0 == probe_of(t0@, v[k]),
                mkdir_done == any_missing(pres, i as int),
                ran_plan(self.sent().skip(s0.len() as int), chosen_plan(skip_present, t0@, v.take(i as int), pres), true),
                R::keeps_history() ==> self.received() == r0 + self.sent().skip(s0.len() as int),
                R::keeps_history() ==> self.asked() == q0 + probe_record(self.probed().skip(p0.len() as int)),
                q0 == old(self).asked(),
            decreases pdfs@.len() - i,
        {
            proof {
                lemma_prefix_run_of_all(skip_present, t0@, v, pres, self.sent().skip(s0.len() as int), i as int);
                assert forall|k: int| 0 <= k < i implies path_file_stem(#[trigger] v[k]) is Some by {
                    assert(v[k] == pdfs@[k]@);
                }
            }
            let stem = match file_stem(pdfs[i].as_str()) {
                Some(s) => s,
                None => return Err(DeployError::NoFileStem(pdfs[i].clone())),
            };
            let probe = probe_path(self.target_folder.as_str(), stem.as_str());
            let ghost before_asked = self.asked();
            let answer = self.runner.doc_exists(probe.as_str());
            proof {
                if R::keeps_history() {
                    let made = self.probed().skip(p0.len() as int);
                    assert(self.asked() == before_asked.push((probe@, probe_answer(answer))));
                    assert(self.asked().take((q0.len() + made.len()) as int) =~= q0 + probe_record(made));
                }
            }
            let present = match answer {
                Ok(b) => b,
                Err(e) => return Err(e),
            };
            let ghost before_probed = self.probed();
            proof {
                self.probed@ = self.probed@.push((probe@, present));
                let np = self.probed().skip(p0.len() as int);
                assert(np =~= before_probed.skip(p0.len() as int).push((probe@, present)));
                assert(probe_answers(np) =~= pres.push(present));
                assert(probe_record(np) =~= probe_record(before_probed.skip(p0.len() as int)).push((probe@, Some(present))));
                assert(self.probed().take(p0.len() as int) =~= before_probed.take(p0.len() as int));
                assert(np[i as int].0 == probe_of(t0@, v[i as int]));
                assert forall|k: int| 0 <= k < i + 1 implies (#[trigger] np[k]).0 == probe_of(t0@, v[k]) by {
                    if k < i {
                        assert(np[k] == before_probed.skip(p0.len() as int)[k]);
                    }
                }
            }
            let cs = if skip_present {
                self.create_step(pdfs[i].as_str(), present, mkdir_done)
            } else {
                self.upsert_step(pdfs[i].as_str(), present, mkdir_done)
            };
            assert(calls_view(cs@) == chosen_step(skip_present, t0@, v[i as int], present, mkdir_done));
            proof {
                lemma_steps_non_interactive(self.target()@, pdfs@[i as int]@, present, mkdir_done);
            }
            let ghost before = self.sent();
            let ghost before_recv = self.received();
            if !present {
                mkdir_done = true;
            }
            let rc = self.run_calls(&cs);
            proof {
                assert(self.sent().take(before.len() as int).take(s0.len() as int) =~= self.sent().take(s0.len() as int));
                assert(self.sent().take(s0.len() as int) =~= s0);
                let old_run = before.skip(s0.len() as int);
                let step_run = self.sent().skip(before.len() as int);
                assert(self.sent().take(before.len() as int) =~= before);
                assert(self.sent().skip(s0.len() as int) =~= old_run + step_run);
                if R::keeps_history() {
                    assert(self.received() =~= r0 + self.sent().skip(s0.len() as int));
                }
                lemma_chosen_plan_push(skip_present, t0@, v, pres, i as int, present);
                lemma_prefix_run_concat(old_run, chosen_plan(skip_present, t0@, v.take(i as int), pres), step_run, calls_view(cs@), rc is Ok);
                lemma_prefix_run_of_all(skip_present, t0@, v, pres.push(present), self.sent().skip(s0.len() as int), i + 1);
                assert(v[i as int] == pdfs@[i as int]@);
            }
            match rc {
                Ok(()) => {},
                Err(e) => return Err(e),
            }
            proof {
                let old_run = before.skip(s0.len() as int);
                let step_run = self.sent().skip(before.len() as int);
                lemma_ran_plan_concat(old_run, chosen_plan(skip_present, t0@, v.take(i as int), pres), step_run, calls_view(cs@));
                let p2 = pres.push(present);
                assert(any_missing(p2, i + 1) == (any_missing(pres, i as int) || !present)) by {
                    if any_missing(p2, i + 1) {
                        let j = choose|j: int| 0 <= j < i + 1 && !p2[j];
                        if j < i {
                            assert(pres[j] == p2[j]);
                        }
                    }
                    if any_missing(pres, i as int) {
                        let j = choose|j: int| 0 <= j < i && !pres[j];
                        assert(pres[j] == p2[j]);
                    }
                    if !present {
                        assert(!p2[i as int]);
                    }
                }
                pres = p2;
            }
            i = i + 1;
        }
        proof {
            assert(v.take(i as int) =~= v);
        }
        Ok(())
    }

    /// Run planned calls in order: a failing `must_succeed` call stops the run
    /// with its error; other failures are ignored. Each call is recorded in
    /// `sent`, with whether it succeeded, as it is handed to the runner.
    fn run_calls(&mut self, cs: &Vec<RmapiCall>) -> (r: Result<(), DeployError>)
        requires
            all_non_interactive(calls_view(cs@)),
        ensures
            final(self).target() == old(self).target(),
            extends(old(self).sent(), final(self).sent()),
            ran_plan(final(self).sent().skip(old(self).sent().len() as int), calls_view(cs@), r is Ok),
            none_must_succeed(calls_view(cs@)) ==> r is Ok,
            final(self).probed() == old(self).probed(),
            R::keeps_history() ==> final(self).received() == old(self).received() + final(self).sent().skip(
                old(self).sent().len() as int,
            ),
            R::keeps_history() ==> final(self).asked() == old(self).asked(),
    {
        let ghost s0 = self.sent();
        let ghost a0 = self.asked();
        let ghost r0 = self.received();
        let ghost p0 = self.probed();
        let ghost t0 = self.target();
        let ghost plan = calls_view(cs@);
        let mut i: usize = 0;
        assert(self.sent().take(s0.len() as int) =~= s0);
        assert(r0 + self.sent().skip(s0.len() as int) =~= r0);
        while i < cs.len()
            invariant
                i <= cs@.len(),
                plan == calls_view(cs@),
                all_non_interactive(plan),
                self.target() == t0,
                extends(s0, self.sent()),
                s0 == old(self).sent(),
                t0 == old(self).target(),
                r0 == old(self).received(),
                p0 == old(self).probed(),
                self.probed() == p0,
                R::keeps_history() ==> self.received() == r0 + self.sent().skip(s0.len() as int),
                R::keeps_history() ==> self.asked() == a0,
                a0 == old(self).asked(),
                self.sent().len() == s0.len() + i,
                forall|j: int| 0 <= j < i ==> (#[trigger] self.sent().skip(s0.len() as int)[j]).0 == plan[j].0,
                forall|j: int| 0 <= j < i ==> (#[trigger] plan[j]).1 ==> self.sent().skip(s0.len() as int)[j].1,
            decreases cs@.len() - i,
        {
            let c = &cs[i];
            assert(plan[i as int] == call_view(cs@[i as int]));
            let mut args: Vec<&str> = Vec::new();
            let mut k: usize = 0;
            while k < c.args.len()
                invariant
                    k <= c.args@.len(),
                    args@.len() == k,
                    forall|j: int| 0 <= j < k ==> (#[trigger] args@[j])@ == c.args@[j]@,
                decreases c.args@.len() - k,
            {
                args.push(c.args[k].as_str());
                k = k + 1;
            }
            assert(views(c.args@)[0] == c.args@[0]@);
            assert(str_views(args@) =~= views(c.args@));
            let ghost before = self.sent();
            let ghost before_recv = self.received();
            let res = self.runner.run(args.as_slice());
            proof {
                self.sent@ = self.sent@.push((str_views(args@), res is Ok));
                let now = self.sent();
                assert(now.skip(s0.len() as int) =~= before.skip(s0.len() as int).push((str_views(args@), res is Ok)));
                if R::keeps_history() {
                    assert(self.received() =~= r0 + now.skip(s0.len() as int));
                }
                assert(now == before.push((plan[i as int].0, res is Ok)));
                assert(now.take(s0.len() as int) =~= before.take(s0.len() as int));
                assert forall|j: int| 0 <= j < i + 1 implies (#[trigger] now.skip(s0.len() as int)[j]).0 == plan[j].0
                    && (plan[j].1 ==> now.skip(s0.len() as int)[j].1 || j == i) by {
                    if j < i {
                        assert(now.skip(s0.len() as int)[j] == before.skip(s0.len() as int)[j]);
                    }
                }
            }
            if c.must_succeed {
                match res {
                    Ok(()) => {},
                    Err(e) => {
                        proof {
                            let l = self.sent().skip(s0.len() as int);
                            assert forall|j: int| 0 <= j < l.len() - 1 implies (#[trigger] plan[j]).1 ==> l[j].1 by {
                                assert(l[j] == before.skip(s0.len() as int)[j]);
                            }
                            assert(!l[i as int].1);
                            assert(self.target() == t0);
                            assert(self.sent().take(s0.len() as int) =~= s0);
                        }
                        return Err(e);
                    },
                }
            }
            proof {
                let l = self.sent().skip(s0.len() as int);
                assert forall|j: int| 0 <= j < i + 1 implies (#[trigger] plan[j]).1 ==> l[j].1 by {
                    if j < i {
                        assert(l[j] == before.skip(s0.len() as int)[j]);
                    }
                }
            }
            i = i + 1;
        }
        proof {
            let l = self.sent().skip(s0.len() as int);
            assert forall|j: int| 0 <= j < l.len() implies (#[trigger] plan[j]).1 ==> l[j].1 by {
                assert(plan[j].1 ==> l[j].1);
            }
        }
        Ok(())
    }
}

impl<R: RmapiRunner> Deployer for RmapiDeployer<R> {
    /// rmapi's mkdir is not recursive, so create each ancestor folder in turn
    /// (e.g. /rmbujo, then /rmbujo/2027); mkdir failures are ignored (a
    /// pre-existing folder makes rmapi error). Then `put` each PDF. The calls
    /// handed to the runner are `deploy_plan`'s, in order, up to the first
    /// failed `put`.
    fn deploy(&mut self, pdfs: &[String]) -> (r: Result<(), DeployError>)
        ensures
            final(self).target() == old(self).target(),
            extends(old(self).sent(), final(self).sent()),
            ran_plan(
                final(self).sent().skip(old(self).sent().len() as int),
                deploy_plan(old(self).target()@, views(pdfs@)),
                r is Ok,
            ),
            pdfs@.len() == 0 ==> r is Ok,
            R::keeps_history() ==> final(self).received() == old(self).received() + final(self).sent().skip(
                old(self).sent().len() as int,
            ),
            R::keeps_history() ==> final(self).asked() == old(self).asked(),
    {
        let cs = self.deploy_calls(pdfs);
        proof {
            lemma_deploy_refresh_non_interactive(self.target()@, views(pdfs@));
            if pdfs@.len() == 0 {
                lemma_mkdir_plan_optional(self.target()@);
                assert(deploy_plan(self.target()@, views(pdfs@)) =~= mkdir_plan(self.target()@));
            }
        }
        self.run_calls(&cs)
    }

    /// Content-only `put` of each PDF; the calls handed to the runner are
    /// `refresh_plan`'s, in order, up to the first failed one.
    fn refresh(&mut self, pdfs: &[String]) -> (r: Result<(), DeployError>)
        ensures
            final(self).target() == old(self).target(),
            extends(old(self).sent(), final(self).sent()),
            ran_plan(
                final(self).sent().skip(old(self).sent().len() as int),
                refresh_plan(old(self).target()@, views(pdfs@)),
                r is Ok,
            ),
            pdfs@.len() == 0 ==> r is Ok,
            R::keeps_history() ==> final(self).received() == old(self).received() + final(self).sent().skip(
                old(self).sent().len() as int,
            ),
            R::keeps_history() ==> final(self).asked() == old(self).asked(),
    {
        let cs = self.refresh_calls(pdfs);
        proof {
            lemma_deploy_refresh_non_interactive(self.target()@, views(pdfs@));
        }
        self.run_calls(&cs)
    }
}


/// `String::from_utf8_lossy(bytes)`, as characters.
pub uninterp spec fn utf8_lossy(bytes: Seq<u8>) -> Seq<char>;

/// `String::from_utf8_lossy`: the text of `bytes`, with each invalid UTF-8
/// sequence replaced by U+FFFD. The contract states the valid case exactly
/// (std documents that valid UTF-8 is decoded as is) and otherwise only ties the
/// result to the bytes through `utf8_lossy`.
#[verifier::external_body]
fn from_utf8_lossy(bytes: &[u8]) -> (s: String)
    ensures
        s@ == utf8_lossy(bytes@),
        vstd::utf8::valid_utf8(bytes@) ==> s@ == vstd::utf8::decode_utf8(bytes@),
{
    String::from_utf8_lossy(bytes).into_owned()
}

/// `s[i..j]` is one line of `s`: it starts at the beginning or after a `\n`,
/// ends at the end or before a `\n`, and holds no `\n`.
pub open spec fn is_line(s: Seq<char>, i: int, j: int) -> bool {
    &&& 0 <= i <= j <= s.len()
    &&& (i == 0 || s[i - 1] == '\n')
    &&& (j == s.len() || s[j] == '\n')
    &&& forall|k: int| i <= k < j ==> s[k] != '\n'
}

/// A conf line sets `key` to a non-empty value: trimmed, it starts with `key`,
/// and what follows, without leading `:`s, trimmed and without surrounding `"`,
/// is not empty.
pub open spec fn sets_token(line: Seq<char>, key: Seq<char>) -> bool {
    let t = trim_ws(line);
    &&& t.len() >= key.len()
    &&& t.take(key.len() as int) == key
    &&& trim_char(trim_ws(trim_start_char(t.skip(key.len() as int), ':')), '"').len() > 0
}

/// Some line of the conf text sets `key` to a non-empty value.
pub open spec fn has_token(s: Seq<char>, key: Seq<char>) -> bool {
    exists|i: int, j: int| is_line(s, i, j) && sets_token(#[trigger] s.subrange(i, j), key)
}

/// A conf is blank unless it has a non-empty `devicetoken` and `usertoken`.
pub open spec fn conf_blank(s: Seq<char>) -> bool {
    !(has_token(s, "devicetoken"@) && has_token(s, "usertoken"@))
}

fn line_sets_token(v: &[char], lo: usize, hi: usize, key: &[char]) -> (b: bool)
    requires
        lo <= hi <= v@.len(),
    ensures
        b == sets_token(v@.subrange(lo as int, hi as int), key@),
{
    let (a, z) = trim_ws_bounds(v, lo, hi);
    let ghost t = v@.subrange(a as int, z as int);
    if key.len() > z - a {
        return false;
    }
    if !has_prefix_at(v, a, key) {
        assert(t.take(key@.len() as int) == v@.subrange(a as int, a + key@.len()));
        return false;
    }
    assert(t.take(key@.len() as int) == v@.subrange(a as int, a + key@.len()));
    let k = a + key.len();
    assert(t.skip(key@.len() as int) == v@.subrange(k as int, z as int));
    let c = trim_start_char_bound(v, k, z, ':');
    let (p, q) = trim_ws_bounds(v, c, z);
    let (x, y) = trim_char_bounds(v, p, q, '"');
    x < y
}

proof fn lemma_line_unique(s: Seq<char>, i: int, j: int, j2: int)
    requires
        is_line(s, i, j),
        is_line(s, i, j2),
    ensures
        j == j2,
{
    if j < j2 {
        assert(s[j] == '\n');
    } else if j2 < j {
        assert(s[j2] == '\n');
    }
}

fn has_token_exec(v: &[char], key: &[char]) -> (b: bool)
    ensures
        b == has_token(v@, key@),
{
    let mut start: usize = 0;
    loop
        invariant
            start <= v@.len(),
            start == 0 || v@[start - 1] == '\n',
            forall|i: int, j: int| is_line(v@, i, j) && i < start ==> !sets_token(#[trigger] v@.subrange(i, j), key@),
        decreases v@.len() - start,
    {
        let mut j: usize = start;
        while j < v.len() && v[j] != '\n'
            invariant
                start <= j <= v@.len(),
                forall|k: int| start <= k < j ==> v@[k] != '\n',
            decreases v@.len() - j,
        {
            j = j + 1;
        }
        assert(is_line(v@, start as int, j as int));
        if line_sets_token(v, start, j, key) {
            return true;
        }
        proof {
            assert forall|i: int, j2: int| is_line(v@, i, j2) && i < j + 1 implies !sets_token(#[trigger] v@.subrange(i, j2), key@) by {
                if i == start {
                    lemma_line_unique(v@, i, j as int, j2);
                } else if i > start {
                    assert(v@[i - 1] == '\n');
                }
            }
        }
        if j == v.len() {
            proof {
                assert forall|i: int, j2: int| is_line(v@, i, j2) implies !sets_token(#[trigger] v@.subrange(i, j2), key@) by {
                    if i >= start {
                        if i == start {
                            lemma_line_unique(v@, i, j as int, j2);
                        } else {
                            assert(v@[i - 1] == '\n');
                        }
                    }
                }
            }
            return false;
        }
        start = j + 1;
    }
}

/// A conf is "blank" unless it has a non-empty devicetoken AND usertoken.
/// rmapi's clobber bug writes empty-string values or truncates the file.
pub fn is_blank_conf(bytes: &[u8]) -> (b: bool)
    ensures
        b == conf_blank(utf8_lossy(bytes@)),
{
    let s = from_utf8_lossy(bytes);
    let v = chars_of(s.as_str());
    let dk = chars_of("devicetoken");
    let uk = chars_of("usertoken");
    !(has_token_exec(&v, &dk) && has_token_exec(&v, &uk))
}

} // verus!
