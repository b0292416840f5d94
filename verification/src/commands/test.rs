use vstd::prelude::*;
use crate::resolver::validator::{BunResponse, TestCase};
use crate::text::{
    contains_seq, contains_str, copy_str, decimal, decimal_string, is_white_space, last_index_in,
    last_line, last_line_of, law_contains_embedded, law_contains_splits, law_trim_ignores_trailing_space,
    law_trim_keeps_inner,
    lemma_last_index_in, same_text, trim, trim_str,
};

verus! {

// ---------------------------------------------------------------------------
// Which cases run
// ---------------------------------------------------------------------------

/// Some case of `cases` asks to be the only ones run.
pub open spec fn any_only(cases: Seq<TestCase>) -> bool {
    exists|i: int| 0 <= i < cases.len() && #[trigger] cases[i].only
}

/// Case `i` runs: it is not skipped, and it is marked `only` when any case is.
pub open spec fn runs(cases: Seq<TestCase>, i: int) -> bool {
    !cases[i].skip && (!any_only(cases) || cases[i].only)
}

/// The indices of the cases among the first `n` that run, in order.
pub open spec fn selected_upto(cases: Seq<TestCase>, n: int) -> Seq<usize>
    decreases n,
{
    if n <= 0 {
        Seq::empty()
    } else if runs(cases, n - 1) {
        selected_upto(cases, n - 1).push((n - 1) as usize)
    } else {
        selected_upto(cases, n - 1)
    }
}

/// The indices of the cases that run, in order.
pub open spec fn selected(cases: Seq<TestCase>) -> Seq<usize> {
    selected_upto(cases, cases.len() as int)
}

/// Whether some case is marked `only`.
pub fn has_only(cases: &Vec<TestCase>) -> (r: bool)
    ensures
        r == any_only(cases@),
        forall|j: int| 0 <= j < cases@.len() && (#[trigger] cases@[j]).only ==> r,
        r ==> exists|j: int| 0 <= j < cases@.len() && (#[trigger] cases@[j]).only,
{
    let mut i: usize = 0;
    while i < cases.len()
        invariant
            i <= cases@.len(),
            forall|k: int| 0 <= k < i ==> !(#[trigger] cases@[k]).only,
        decreases cases.len() - i,
    {
        if cases[i].only {
            assert(cases@[i as int].only);
            return true;
        }
        i = i + 1;
    }
    false
}

/// The indices of the cases to run, in the order of the file.
pub fn select_cases(cases: &Vec<TestCase>) -> (r: Vec<usize>)
    ensures
        r@ == selected(cases@),
{
    let only = has_only(cases);
    let mut r: Vec<usize> = Vec::new();
    let mut i: usize = 0;
    while i < cases.len()
        invariant
            i <= cases@.len(),
            only == any_only(cases@),
            r@ == selected_upto(cases@, i as int),
        decreases cases.len() - i,
    {
        let keep = !cases[i].skip && (!only || cases[i].only);
        if keep {
            r.push(i);
        }
        i = i + 1;
    }
    r
}

/// The selection holds each index of a case that runs, and no other.
pub proof fn lemma_selected_upto_members(cases: Seq<TestCase>, n: int, i: int)
    requires
        0 <= n <= cases.len(),
        cases.len() <= usize::MAX,
        0 <= i <= usize::MAX,
    ensures
        selected_upto(cases, n).contains(i as usize) <==> (i < n && runs(cases, i)),
    decreases n,
{
    if n > 0 {
        lemma_selected_upto_members(cases, n - 1, i);
        lemma_selected_upto_bounds(cases, n - 1);
        let s = selected_upto(cases, n - 1);
        if runs(cases, n - 1) {
            let x = (n - 1) as usize;
            let t = s.push(x);
            assert(t[s.len() as int] == x);
            if t.contains(i as usize) {
                let k = choose|k: int| 0 <= k < t.len() && #[trigger] t[k] == i as usize;
                if k < s.len() {
                    assert(s[k] == i as usize);
                    assert(s.contains(i as usize));
                }
            }
            if i < n - 1 && runs(cases, i) {
                let k = choose|k: int| 0 <= k < s.len() && #[trigger] s[k] == i as usize;
                assert(t[k] == i as usize);
            }
            if i == n - 1 {
                assert(t.contains(i as usize));
            }
        } else {
            if s.contains(i as usize) {
                let k = choose|k: int| 0 <= k < s.len() && #[trigger] s[k] == i as usize;
                assert(s[k] < n - 1);
            }
        }
    }
}

/// Every index in the selection of the first `n` cases is below `n`.
proof fn lemma_selected_upto_bounds(cases: Seq<TestCase>, n: int)
    requires
        0 <= n <= cases.len(),
        cases.len() <= usize::MAX,
    ensures
        forall|k: int| 0 <= k < selected_upto(cases, n).len() ==> selected_upto(cases, n)[k] < n,
        selected_upto(cases, n).len() <= n,
    decreases n,
{
    if n > 0 {
        lemma_selected_upto_bounds(cases, n - 1);
    }
}

/// The selection lists indices in increasing order, so each case runs at most once and
/// in the order of the file.
proof fn lemma_selected_upto_increasing(cases: Seq<TestCase>, n: int)
    requires
        0 <= n <= cases.len(),
        cases.len() <= usize::MAX,
    ensures
        forall|a: int, b: int|
            0 <= a < b < selected_upto(cases, n).len() ==> selected_upto(cases, n)[a]
                < selected_upto(cases, n)[b],
    decreases n,
{
    if n > 0 {
        lemma_selected_upto_increasing(cases, n - 1);
        lemma_selected_upto_bounds(cases, n - 1);
    }
}

/// The cases that run are exactly those that are not skipped and, when some case is marked
/// `only`, are marked `only`; they run in the order of the file, each once.
pub proof fn law_selection(cases: Seq<TestCase>)
    requires
        cases.len() <= usize::MAX,
    ensures
        forall|i: int|
            0 <= i < cases.len() ==> (selected(cases).contains(i as usize) <==> runs(cases, i)),
        forall|k: int| 0 <= k < selected(cases).len() ==> selected(cases)[k] < cases.len(),
        forall|a: int, b: int|
            0 <= a < b < selected(cases).len() ==> selected(cases)[a] < selected(cases)[b],
{
    assert forall|i: int| 0 <= i < cases.len() implies (selected(cases).contains(i as usize)
        <==> runs(cases, i)) by {
        lemma_selected_upto_members(cases, cases.len() as int, i);
    }
    lemma_selected_upto_bounds(cases, cases.len() as int);
    lemma_selected_upto_increasing(cases, cases.len() as int);
}

/// A skipped case never runs, and when some case is marked `only`, no unmarked case runs.
pub proof fn law_skip_and_only(cases: Seq<TestCase>, i: int)
    requires
        cases.len() <= usize::MAX,
        0 <= i < cases.len(),
    ensures
        cases[i].skip ==> !selected(cases).contains(i as usize),
        any_only(cases) && !cases[i].only ==> !selected(cases).contains(i as usize),
        !any_only(cases) && !cases[i].skip ==> selected(cases).contains(i as usize),
{
    lemma_selected_upto_members(cases, cases.len() as int, i);
}

/// What decides whether case `i` runs, read off the flags of the cases themselves: a case
/// marked `only` anywhere in the list (the last one too) shuts out every unmarked case; a
/// marked, unskipped case always runs; a skipped case never runs; and when no case is marked
/// `only`, every case that is not skipped runs.
pub proof fn law_only_and_skip_decide(cases: Seq<TestCase>, i: int, j: int)
    requires
        cases.len() <= usize::MAX,
        0 <= i < cases.len(),
        0 <= j < cases.len(),
    ensures
        cases[j].only && !cases[i].only ==> !selected(cases).contains(i as usize),
        cases[i].only && !cases[i].skip ==> selected(cases).contains(i as usize),
        cases[i].skip ==> !selected(cases).contains(i as usize),
        (forall|k: int| 0 <= k < cases.len() ==> !(#[trigger] cases[k]).only) && !cases[i].skip
            ==> selected(cases).contains(i as usize),
{
    lemma_selected_upto_members(cases, cases.len() as int, i);
    if cases[j].only {
        assert(any_only(cases));
    }
    if cases[i].only {
        assert(any_only(cases));
    }
}

// ---------------------------------------------------------------------------
// One case
// ---------------------------------------------------------------------------

/// The output-display mode that shows the whole output.
pub open spec fn mode_watch() -> Seq<char> {
    "watch"@
}

/// The output-display mode that shows the last line of the output.
pub open spec fn mode_only_last() -> Seq<char> {
    "only-last"@
}

/// The output-display mode that shows only the verdict.
pub open spec fn mode_none() -> Seq<char> {
    "none"@
}

/// The verdict line of a case.
pub open spec fn verdict(passed: bool) -> Seq<char> {
    if passed {
        "Pass Test"@
    } else {
        "Failed Test"@
    }
}

/// What is expected of a case: its `expect` value as text, without surrounding white space.
pub open spec fn expected_of(tc: TestCase) -> Seq<char> {
    trim(tc.expect.text())
}

/// The last line of an output, without surrounding white space (empty when there is none).
pub open spec fn last_line_shown(actual: Seq<char>) -> Seq<char> {
    trim(
        match last_line(actual) {
            Some(l) => l,
            None => Seq::empty(),
        },
    )
}

/// What is printed for a case: to standard output, and to standard error.
pub open spec fn report(mode: Seq<char>, actual: Seq<char>, expected: Seq<char>, passed: bool) -> (
    Seq<char>,
    Seq<char>,
) {
    if mode == mode_watch() {
        (actual + "\n\nExpect:\n"@ + expected + "\n\n"@ + verdict(passed) + "\n"@, Seq::empty())
    } else if mode == mode_only_last() {
        (
            last_line_shown(actual) + "\n\nExpect:\n"@ + expected + "\n\n"@ + verdict(
                passed,
            ) + "\n"@,
            Seq::empty(),
        )
    } else if mode == mode_none() {
        (verdict(passed) + "\n"@, Seq::empty())
    } else {
        (Seq::empty(), "Unknown output_display mode: "@ + mode + "\n"@)
    }
}

/// What to print for one case, to standard output and to standard error.
pub struct CaseReport {
    pub stdout: String,
    pub stderr: String,
}

/// What starts one case: the line that announces it and the lines fed to the program.
pub struct CaseStart {
    pub banner: String,
    pub inputs: Vec<String>,
}

/// The progress of a test run: how many cases were judged, and how many of them passed.
pub struct Tally {
    pub judged: usize,
    pub passed: usize,
}

impl Tally {
    /// The tally counts no more passes than judgements.
    pub open spec fn wf(&self) -> bool {
        self.passed <= self.judged
    }

    /// A tally with nothing judged.
    pub fn new() -> (t: Tally)
        ensures
            t.judged == 0,
            t.passed == 0,
            t.wf(),
    {
        Tally { judged: 0, passed: 0 }
    }
}

/// The announcement of a case and the text of each of its inputs.
pub fn start_case(tc: &TestCase) -> (r: CaseStart)
    ensures
        r.banner@ == "Testing... "@ + tc.name@ + "\n"@,
        r.inputs@.len() == tc.inputs@.len(),
        forall|i: int| 0 <= i < tc.inputs@.len() ==> (#[trigger] r.inputs@[i])@ == tc.inputs@[i].text(),
{
    let mut banner = copy_str("Testing... ");
    banner.append(tc.name.as_str());
    banner.append("\n");
    let mut inputs: Vec<String> = Vec::new();
    let mut i: usize = 0;
    while i < tc.inputs.len()
        invariant
            i <= tc.inputs@.len(),
            inputs@.len() == i,
            forall|k: int| 0 <= k < i ==> (#[trigger] inputs@[k])@ == tc.inputs@[k].text(),
        decreases tc.inputs.len() - i,
    {
        inputs.push(tc.inputs[i].to_text());
        i = i + 1;
    }
    CaseStart { banner, inputs }
}

/// What a case expects: its `expect` value as text, trimmed.
pub fn expected_output(tc: &TestCase) -> (r: String)
    ensures
        r@ == expected_of(*tc),
{
    let t = tc.expect.to_text();
    trim_str(t.as_str())
}

/// A case passes when the expected text occurs in the output.
pub fn is_passed(actual: &str, expected: &str) -> (r: bool)
    ensures
        r == contains_seq(actual@, expected@),
{
    contains_str(actual, expected)
}

fn verdict_line(passed: bool) -> (r: String)
    ensures
        r@ == verdict(passed) + "\n"@,
{
    let mut r = if passed {
        copy_str("Pass Test")
    } else {
        copy_str("Failed Test")
    };
    r.append("\n");
    r
}

/// The last line of an output, trimmed.
pub fn shown_last_line(actual: &str) -> (r: String)
    ensures
        r@ == last_line_shown(actual@),
{
    match last_line_of(actual) {
        Some(l) => trim_str(l.as_str()),
        None => {
            let e = String::new();
            trim_str(e.as_str())
        },
    }
}

/// What to print for a case with the given display mode, output, expectation and verdict.
pub fn case_report(mode: &str, actual: &str, expected: &str, passed: bool) -> (r: CaseReport)
    ensures
        (r.stdout@, r.stderr@) == report(mode@, actual@, expected@, passed),
{
    if same_text(mode, "watch") {
        let mut out = copy_str(actual);
        out.append("\n\nExpect:\n");
        out.append(expected);
        out.append("\n\n");
        let v = verdict_line(passed);
        out.append(v.as_str());
        CaseReport { stdout: out, stderr: String::new() }
    } else if same_text(mode, "only-last") {
        let mut out = shown_last_line(actual);
        out.append("\n\nExpect:\n");
        out.append(expected);
        out.append("\n\n");
        let v = verdict_line(passed);
        out.append(v.as_str());
        CaseReport { stdout: out, stderr: String::new() }
    } else if same_text(mode, "none") {
        CaseReport { stdout: verdict_line(passed), stderr: String::new() }
    } else {
        let mut err = copy_str("Unknown output_display mode: ");
        err.append(mode);
        err.append("\n");
        CaseReport { stdout: String::new(), stderr: err }
    }
}

/// Judges one case on the output of its program: counts it in the tally and says what to print.
pub fn judge_case(tally: &mut Tally, tc: &TestCase, actual: &str) -> (r: CaseReport)
    requires
        old(tally).wf(),
        old(tally).judged < usize::MAX,
    ensures
        final(tally).wf(),
        final(tally).judged == old(tally).judged + 1,
        final(tally).passed == old(tally).passed + if contains_seq(actual@, expected_of(*tc)) {
            1int
        } else {
            0int
        },
        (r.stdout@, r.stderr@) == report(
            tc.output_display@,
            actual@,
            expected_of(*tc),
            contains_seq(actual@, expected_of(*tc)),
        ),
{
    let expected = expected_output(tc);
    let passed = is_passed(actual, expected.as_str());
    tally.judged = tally.judged + 1;
    if passed {
        tally.passed = tally.passed + 1;
    }
    case_report(tc.output_display.as_str(), actual, expected.as_str(), passed)
}

/// How many of the first `k` cases pass, each judged on its own output.
pub open spec fn passes_upto(cases: Seq<TestCase>, outputs: Seq<Seq<char>>, k: int) -> nat
    decreases k,
{
    if k <= 0 {
        0
    } else {
        passes_upto(cases, outputs, k - 1) + if contains_seq(
            outputs[k - 1],
            expected_of(cases[k - 1]),
        ) {
            1nat
        } else {
            0nat
        }
    }
}

/// Two cases that differ at most in how their result is shown.
pub open spec fn same_but_display(a: TestCase, b: TestCase) -> bool {
    &&& a.name@ == b.name@
    &&& a.inputs@ == b.inputs@
    &&& a.expect == b.expect
    &&& a.only == b.only
    &&& a.skip == b.skip
}

/// The display mode does not change which cases pass: two lists of cases that differ only in
/// their display modes, judged on the same outputs, pass the same number of times.
pub proof fn law_pass_count_ignores_display(
    a: Seq<TestCase>,
    b: Seq<TestCase>,
    outputs: Seq<Seq<char>>,
    k: int,
)
    requires
        a.len() == b.len(),
        0 <= k <= a.len(),
        forall|i: int| 0 <= i < a.len() ==> same_but_display(#[trigger] a[i], b[i]),
    ensures
        passes_upto(a, outputs, k) == passes_upto(b, outputs, k),
    decreases k,
{
    if k > 0 {
        assert(same_but_display(a[k - 1], b[k - 1]));
        law_pass_count_ignores_display(a, b, outputs, k - 1);
    }
}

/// A case whose output holds its expectation somewhere counts as a pass, and a case whose
/// output is shorter than its expectation does not.
pub proof fn law_pass_when_output_holds_expectation(
    cases: Seq<TestCase>,
    outputs: Seq<Seq<char>>,
    k: int,
    a: Seq<char>,
    b: Seq<char>,
)
    requires
        0 <= k,
    ensures
        outputs[k] == a + expected_of(cases[k]) + b ==> passes_upto(cases, outputs, k + 1)
            == passes_upto(cases, outputs, k) + 1,
        outputs[k].len() < expected_of(cases[k]).len() ==> passes_upto(cases, outputs, k + 1)
            == passes_upto(cases, outputs, k),
{
    law_contains_embedded(a, expected_of(cases[k]), b);
    if contains_seq(outputs[k], expected_of(cases[k])) {
        law_contains_splits(outputs[k], expected_of(cases[k]));
    }
}

/// Judging the next case on its output moves the tally's pass count along `passes_upto`.
pub proof fn law_tally_counts_passes(
    cases: Seq<TestCase>,
    outputs: Seq<Seq<char>>,
    k: int,
    before: Tally,
    after: Tally,
)
    requires
        0 <= k,
        before.passed == passes_upto(cases, outputs, k),
        after.passed == before.passed + if contains_seq(outputs[k], expected_of(cases[k])) {
            1int
        } else {
            0int
        },
    ensures
        after.passed == passes_upto(cases, outputs, k + 1),
{
}

/// What a case expects is its whole `expect` text with only surrounding white space taken
/// off: a stretch of that text with nothing but white space before and after it, which is
/// empty or starts and ends with a character that is not white space.
pub proof fn law_expected_is_whole_expect(tc: TestCase)
    ensures
        ({
            let t = tc.expect.text();
            exists|i: int, j: int|
                {
                    &&& 0 <= i <= j <= t.len()
                    &&& expected_of(tc) == t.subrange(i, j)
                    &&& forall|k: int| 0 <= k < i ==> is_white_space(#[trigger] t[k])
                    &&& forall|k: int| j <= k < t.len() ==> is_white_space(#[trigger] t[k])
                    &&& i < j ==> !is_white_space(t[i]) && !is_white_space(t[j - 1])
                }
        }),
{
    law_trim_keeps_inner(tc.expect.text());
}

/// In every display mode that shows a verdict, standard output ends with `Pass Test` when the
/// case passed and with `Failed Test` when it failed; mode `none` shows only that line, and
/// an unknown mode shows nothing on standard output.
pub proof fn law_report_verdict(mode: Seq<char>, actual: Seq<char>, expected: Seq<char>, passed: bool)
    ensures
        ({
            let out = report(mode, actual, expected, passed).0;
            let line = if passed {
                "Pass Test\n"@
            } else {
                "Failed Test\n"@
            };
            &&& mode == "none"@ ==> out == line && report(mode, actual, expected, passed).1.len()
                == 0
            &&& mode == "watch"@ ==> out == actual + "\n\nExpect:\n"@ + expected + "\n\n"@ + line
            &&& mode == "only-last"@ ==> out == last_line_shown(actual) + "\n\nExpect:\n"@
                + expected + "\n\n"@ + line
            &&& mode != "none"@ && mode != "watch"@ && mode != "only-last"@ ==> out.len() == 0
        }),
{
    reveal_strlit("Pass Test");
    reveal_strlit("Failed Test");
    reveal_strlit("Pass Test\n");
    reveal_strlit("Failed Test\n");
    reveal_strlit("\n");
    reveal_strlit("none");
    reveal_strlit("watch");
    reveal_strlit("only-last");
    assert("none"@.len() == 4 && "watch"@.len() == 5 && "only-last"@.len() == 9);
    let line = if passed {
        "Pass Test\n"@
    } else {
        "Failed Test\n"@
    };
    assert(verdict(passed) + "\n"@ =~= line);
    assert(actual + "\n\nExpect:\n"@ + expected + "\n\n"@ + verdict(passed) + "\n"@ =~= actual
        + "\n\nExpect:\n"@ + expected + "\n\n"@ + line);
    assert(last_line_shown(actual) + "\n\nExpect:\n"@ + expected + "\n\n"@ + verdict(passed)
        + "\n"@ =~= last_line_shown(actual) + "\n\nExpect:\n"@ + expected + "\n\n"@ + line);
}

/// A newline after an output that does not already end with one does not change the line
/// that mode `only-last` shows.
pub proof fn law_shown_line_ignores_final_newline(actual: Seq<char>)
    requires
        actual.len() == 0 || actual.last() != '\n',
    ensures
        last_line_shown(actual.push('\n')) == last_line_shown(actual),
{
    let s = actual.push('\n');
    assert(s.drop_last() =~= actual);
    if actual.len() == 0 {
        lemma_last_index_in(s.drop_last(), '\n', 0, 0);
        assert(last_line(s) == Some(Seq::<char>::empty()));
    } else {
        let k = last_index_in(actual, '\n', 0, actual.len() as int);
        lemma_last_index_in(actual, '\n', 0, actual.len() as int);
        let line = actual.subrange(k + 1, actual.len() as int);
        assert(last_line(actual) == Some(line));
        if line.len() > 0 && line.last() == '\r' {
            assert(last_line(s) == Some(line.drop_last()));
            law_trim_ignores_trailing_space(line);
        } else {
            assert(last_line(s) == Some(line));
        }
    }
}

/// For an output of one line without a newline, mode `only-last` shows that whole line,
/// trimmed.
pub proof fn law_shown_line_of_single_line(actual: Seq<char>)
    requires
        forall|k: int| 0 <= k < actual.len() ==> actual[k] != '\n',
    ensures
        last_line_shown(actual) == trim(actual),
{
    if actual.len() > 0 {
        lemma_last_index_in(actual, '\n', 0, actual.len() as int);
        let k = last_index_in(actual, '\n', 0, actual.len() as int);
        if k >= 0 {
            assert(actual[k] == '\n');
        }
        assert(actual.subrange(0, actual.len() as int) =~= actual);
    }
}

// ---------------------------------------------------------------------------
// The whole run
// ---------------------------------------------------------------------------

/// The summary printed after the cases: the count of passes, and a cheer when all passed.
pub open spec fn summary(passed: nat, total: nat) -> Seq<char> {
    "\n📊 --- テスト結果リポート ---\n総合結果: "@ + decimal(passed) + " / "@ + decimal(total)
        + " 件パスしました。\n"@ + if passed == total {
        "🎉 オールクリア！課題成功です！\n"@
    } else {
        Seq::empty()
    }
}

/// The summary printed after the cases.
pub fn summary_report(passed: usize, total: usize) -> (r: String)
    ensures
        r@ == summary(passed as nat, total as nat),
{
    let mut r = copy_str("\n📊 --- テスト結果リポート ---\n総合結果: ");
    let p = decimal_string(passed);
    r.append(p.as_str());
    r.append(" / ");
    let t = decimal_string(total);
    r.append(t.as_str());
    r.append(" 件パスしました。\n");
    if passed == total {
        r.append("🎉 オールクリア！課題成功です！\n");
    }
    r
}

/// What to do with the validator's answer: stop with a message on a validation error, or run
/// the selected cases.
pub fn plan_run(res: &BunResponse) -> (r: Result<Vec<usize>, String>)
    ensures
        match res {
            BunResponse::Error { message, .. } => r matches Err(m) && m@ == "バリデーション失敗:\n"@
                + message@,
            BunResponse::Success { data, .. } => r matches Ok(v) && v@ == selected(data@),
        },
{
    match res {
        BunResponse::Error { message, .. } => {
            let mut m = copy_str("バリデーション失敗:\n");
            m.append(message.as_str());
            Err(m)
        },
        BunResponse::Success { data, .. } => Ok(select_cases(data)),
    }
}

} // verus!
