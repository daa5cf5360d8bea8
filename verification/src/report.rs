//! The report as text: what the window shows, in a form that can be copied and
//! sent to a provider's support.
//!
//! It is always complete, with the plain explanation, the technical one and the
//! raw data: who will read it is not known in advance.

use vstd::prelude::*;
use vstd::string::StringExecFns;
use crate::model::{
    all_layers, CheckResult, CheckView, Diagnosis, DiagnosisView, Layer, NodeState, NodeView,
    Report, ReportView, Status,
};
use crate::privileged::Capabilities;
use crate::scan::{
    left_in, lemma_texts_empty, lemma_texts_push, lines, lines_of, pad_left, pad_right, right_in,
    texts,
};
use crate::text::{chars_of, dec, decimal};

verus! {

/// Lines as a text: each ends with a line feed.
pub open spec fn ended(list: Seq<Seq<char>>) -> Seq<char>
    decreases list.len(),
{
    if list.len() == 0 {
        Seq::empty()
    } else {
        ended(list.drop_last()) + list.last() + "\n"@
    }
}

fn end_lines(list: &Vec<String>) -> (r: String)
    ensures
        r@ == ended(texts(list@)),
{
    let ghost all = texts(list@);
    let mut out = String::new();
    let mut i: usize = 0;
    assert(all.take(0) =~= Seq::<Seq<char>>::empty());
    while i < list.len()
        invariant
            i <= list@.len(),
            all == texts(list@),
            out@ == ended(all.take(i as int)),
        decreases list@.len() - i,
    {
        assert(all.take(i + 1).drop_last() =~= all.take(i as int));
        assert(all.take(i + 1).last() == list@[i as int]@);
        out = out.concat(list[i].as_str()).concat("\n");
        i += 1;
    }
    assert(all.take(i as int) =~= all);
    out
}

fn add_line(out: &mut Vec<String>, line: String)
    ensures
        texts(final(out)@) == texts(old(out)@).push(line@),
{
    proof {
        lemma_texts_push(out@, line);
    }
    out.push(line);
}

/// The first lines: how measurements were made.
pub open spec fn heading(mode: Seq<char>, elevated: bool) -> Seq<Seq<char>> {
    seq![
        "NETCHECKER — отчёт о состоянии подключения"@,
        "Режим замеров: "@ + mode,
        "Права администратора: "@ + (if elevated {
            "есть"@
        } else {
            "нет"@
        }),
        Seq::empty(),
    ]
}

fn add_heading(out: &mut Vec<String>, mode: &str, elevated: bool)
    ensures
        texts(final(out)@) == texts(old(out)@) + heading(mode@, elevated),
{
    let ghost was = texts(out@);
    add_line(out, String::from_str("NETCHECKER — отчёт о состоянии подключения"));
    add_line(out, String::from_str("Режим замеров: ").concat(mode));
    add_line(
        out,
        String::from_str("Права администратора: ").concat(
            if elevated {
                "есть"
            } else {
                "нет"
            },
        ),
    );
    add_line(out, String::new());
    assert(texts(out@) =~= was + heading(mode@, elevated));
}

/// Lines with a prefix each.
pub open spec fn prefixed(prefix: Seq<char>, list: Seq<Seq<char>>) -> Seq<Seq<char>> {
    list.map_values(|s: Seq<char>| prefix + s)
}

/// The lines of the verdict.
pub open spec fn verdict_lines(d: DiagnosisView) -> Seq<Seq<char>> {
    seq!["ВЫВОД: "@ + d.headline, d.simple] + (if d.expert.len() > 0 {
        seq!["Технически: "@ + d.expert]
    } else {
        Seq::empty()
    }) + (if d.actions.len() > 0 {
        seq![Seq::empty(), "Что можно сделать:"@] + prefixed("  - "@, d.actions)
    } else {
        Seq::empty()
    })
}

fn add_prefixed(out: &mut Vec<String>, prefix: &str, list: &Vec<String>)
    ensures
        texts(final(out)@) == texts(old(out)@) + prefixed(prefix@, texts(list@)),
{
    let ghost was = texts(out@);
    let ghost all = prefixed(prefix@, texts(list@));
    let mut i: usize = 0;
    assert(was + all.take(0) =~= was);
    while i < list.len()
        invariant
            i <= list@.len(),
            all == prefixed(prefix@, texts(list@)),
            texts(out@) == was + all.take(i as int),
        decreases list@.len() - i,
    {
        add_line(out, prefix.to_owned().concat(list[i].as_str()));
        assert(was + all.take(i + 1) =~= (was + all.take(i as int)).push(all[i as int]));
        i += 1;
    }
    assert(all.take(i as int) =~= all);
}

fn add_verdict(out: &mut Vec<String>, d: &Diagnosis)
    ensures
        texts(final(out)@) == texts(old(out)@) + verdict_lines(d@),
{
    let ghost was = texts(out@);
    add_line(out, String::from_str("ВЫВОД: ").concat(d.headline.as_str()));
    add_line(out, d.simple.clone());
    if chars_of(d.expert.as_str()).len() > 0 {
        add_line(out, String::from_str("Технически: ").concat(d.expert.as_str()));
    }
    let ghost mid = texts(out@);
    if d.actions.len() > 0 {
        add_line(out, String::new());
        add_line(out, String::from_str("Что можно сделать:"));
        add_prefixed(out, "  - ", &d.actions);
        assert(texts(out@) =~= mid + (seq![Seq::empty(), "Что можно сделать:"@] + prefixed(
            "  - "@,
            d@.actions,
        )));
    }
    assert(texts(out@) =~= was + verdict_lines(d@));
}

/// The line of a node of the chart.
pub open spec fn node_line(n: NodeView) -> Seq<char> {
    "  ["@ + right_in(n.status.glyph_text(), 2) + "] "@ + left_in(n.id.title_text(), 16) + " "@
        + left_in(
        match n.address {
            Some(a) => a,
            None => "—"@,
        },
        18,
    ) + " "@ + n.subtitle
}

pub open spec fn node_lines(nodes: Seq<NodeView>) -> Seq<Seq<char>> {
    nodes.map_values(|n: NodeView| node_line(n))
}

/// The lines of the chart.
pub open spec fn chart_lines(r: ReportView) -> Seq<Seq<char>> {
    seq![Seq::empty(), "СХЕМА СЕТИ"@] + node_lines(r.nodes) + (match r.diagnosis.break_edge {
        Some((from, to)) => seq![
            "  Обрыв на участке: "@ + from.title_text() + " -> "@ + to.title_text(),
        ],
        None => Seq::empty(),
    })
}

fn add_node(out: &mut Vec<String>, n: &NodeState)
    ensures
        texts(final(out)@) == texts(old(out)@).push(node_line(n@)),
{
    let address = match &n.address {
        Some(a) => a.clone(),
        None => String::from_str("—"),
    };
    add_line(
        out,
        String::from_str("  [").concat(pad_left(n.status.glyph(), 2).as_str()).concat(
            "] ",
        ).concat(pad_right(n.id.title(), 16).as_str()).concat(" ").concat(
            pad_right(address.as_str(), 18).as_str(),
        ).concat(" ").concat(n.subtitle.as_str()),
    );
}

fn add_chart(out: &mut Vec<String>, report: &Report)
    ensures
        texts(final(out)@) == texts(old(out)@) + chart_lines(report@),
{
    let ghost was = texts(out@);
    add_line(out, String::new());
    add_line(out, String::from_str("СХЕМА СЕТИ"));
    let ghost begun = texts(out@);
    let ghost all = node_lines(report@.nodes);
    let mut i: usize = 0;
    assert(begun + all.take(0) =~= begun);
    while i < report.nodes.len()
        invariant
            i <= report.nodes@.len(),
            all == node_lines(report@.nodes),
            texts(out@) == begun + all.take(i as int),
        decreases report.nodes@.len() - i,
    {
        assert(all[i as int] == node_line(report.nodes@[i as int]@));
        add_node(out, &report.nodes[i]);
        assert(begun + all.take(i + 1) =~= (begun + all.take(i as int)).push(all[i as int]));
        i += 1;
    }
    assert(all.take(i as int) =~= all);
    match report.diagnosis.break_edge {
        Some((from, to)) => {
            add_line(
                out,
                String::from_str("  Обрыв на участке: ").concat(from.title()).concat(
                    " -> ",
                ).concat(to.title()),
            );
        },
        None => {},
    }
    assert(texts(out@) =~= was + chart_lines(report@));
}

/// The lines of evidence: each may itself hold several lines.
pub open spec fn evidence_lines(evidence: Seq<Seq<char>>) -> Seq<Seq<char>>
    decreases evidence.len(),
{
    if evidence.len() == 0 {
        Seq::empty()
    } else {
        evidence_lines(evidence.drop_last()) + prefixed(
            "         "@,
            lines_of(evidence.last()),
        )
    }
}

/// The lines of a check: its heading, both explanations and the raw data.
pub open spec fn check_lines(c: CheckView) -> Seq<Seq<char>> {
    seq!["  ["@ + right_in(c.status.glyph_text(), 2) + "] "@ + c.title] + (
    if c.simple.len() > 0 {
        seq!["       "@ + c.simple]
    } else {
        Seq::empty()
    }) + (if c.expert.len() > 0 {
        seq!["       технически: "@ + c.expert]
    } else {
        Seq::empty()
    }) + evidence_lines(c.evidence)
}

/// The lines of several checks.
pub open spec fn all_check_lines(checks: Seq<CheckView>) -> Seq<Seq<char>>
    decreases checks.len(),
{
    if checks.len() == 0 {
        Seq::empty()
    } else {
        all_check_lines(checks.drop_last()) + check_lines(checks.last())
    }
}

/// The checks of a layer.
pub open spec fn of_layer(checks: Seq<CheckView>, layer: Layer) -> Seq<CheckView> {
    checks.filter(|c: CheckView| c.layer == layer)
}

/// The lines of a layer; none where it has no checks.
pub open spec fn layer_lines(checks: Seq<CheckView>, layer: Layer) -> Seq<Seq<char>> {
    let own = of_layer(checks, layer);
    if own.len() == 0 {
        Seq::empty()
    } else {
        seq![
            Seq::empty(),
            layer.code_text() + " · "@ + layer.title_text() + " — "@ + layer.plain_text(),
        ] + all_check_lines(own)
    }
}

/// The lines of the first `n` layers.
pub open spec fn layers_lines(checks: Seq<CheckView>, n: int) -> Seq<Seq<char>>
    decreases n,
{
    if n <= 0 {
        Seq::empty()
    } else {
        layers_lines(checks, n - 1) + layer_lines(checks, all_layers()[n - 1])
    }
}

fn add_evidence(out: &mut Vec<String>, evidence: &Vec<String>)
    ensures
        texts(final(out)@) == texts(old(out)@) + evidence_lines(texts(evidence@)),
{
    let ghost was = texts(out@);
    let ghost all = texts(evidence@);
    let mut i: usize = 0;
    proof {
        assert(all.take(0) =~= Seq::<Seq<char>>::empty());
        assert(was + evidence_lines(all.take(0)) =~= was);
    }
    while i < evidence.len()
        invariant
            i <= evidence@.len(),
            all == texts(evidence@),
            texts(out@) == was + evidence_lines(all.take(i as int)),
        decreases evidence@.len() - i,
    {
        proof {
            assert(all.take(i + 1).drop_last() =~= all.take(i as int));
            assert(all.take(i + 1).last() == evidence@[i as int]@);
        }
        let parts = lines(evidence[i].as_str());
        add_prefixed(out, "         ", &parts);
        assert(texts(out@) =~= was + evidence_lines(all.take(i + 1)));
        i += 1;
    }
    assert(all.take(i as int) =~= all);
}

fn add_check(out: &mut Vec<String>, c: &CheckResult)
    ensures
        texts(final(out)@) == texts(old(out)@) + check_lines(c@),
{
    let ghost was = texts(out@);
    add_line(
        out,
        String::from_str("  [").concat(pad_left(c.status.glyph(), 2).as_str()).concat(
            "] ",
        ).concat(c.title.as_str()),
    );
    if chars_of(c.simple.as_str()).len() > 0 {
        add_line(out, String::from_str("       ").concat(c.simple.as_str()));
    }
    if chars_of(c.expert.as_str()).len() > 0 {
        add_line(out, String::from_str("       технически: ").concat(c.expert.as_str()));
    }
    add_evidence(out, &c.evidence);
    assert(texts(out@) =~= was + check_lines(c@));
}

fn add_layer(out: &mut Vec<String>, report: &Report, layer: Layer)
    ensures
        texts(final(out)@) == texts(old(out)@) + layer_lines(report@.checks, layer),
{
    let ghost was = texts(out@);
    let own = report.checks_of(layer);
    let ghost views = of_layer(report@.checks, layer);
    assert(own@.map_values(|c: &CheckResult| c@) == views);
    assert(own@.len() == views.len());
    if own.len() == 0 {
        assert(was + layer_lines(report@.checks, layer) =~= was);
        return;
    }
    add_line(out, String::new());
    add_line(
        out,
        String::from_str(layer.code()).concat(" · ").concat(layer.title()).concat(" — ").concat(
            layer.plain(),
        ),
    );
    let ghost begun = texts(out@);
    let mut i: usize = 0;
    proof {
        assert(views.take(0) =~= Seq::<CheckView>::empty());
        assert(begun + all_check_lines(views.take(0)) =~= begun);
    }
    while i < own.len()
        invariant
            i <= own@.len(),
            own@.len() == views.len(),
            own@.map_values(|c: &CheckResult| c@) == views,
            texts(out@) == begun + all_check_lines(views.take(i as int)),
        decreases own@.len() - i,
    {
        proof {
            assert(views.take(i + 1).drop_last() =~= views.take(i as int));
            assert(views.take(i + 1).last() == views[i as int]);
            assert(own@.map_values(|c: &CheckResult| c@)[i as int] == own@[i as int]@);
        }
        add_check(out, own[i]);
        assert(texts(out@) =~= begun + all_check_lines(views.take(i + 1)));
        i += 1;
    }
    assert(views.take(i as int) =~= views);
    assert(texts(out@) =~= was + layer_lines(report@.checks, layer));
}

/// How many checks failed.
pub open spec fn failures_in(checks: Seq<CheckView>) -> nat
    decreases checks.len(),
{
    if checks.len() == 0 {
        0
    } else {
        failures_in(checks.drop_last()) + (if checks.last().status == Status::Fail {
            1nat
        } else {
            0
        })
    }
}

fn count_failures(report: &Report) -> (r: usize)
    ensures
        r == failures_in(report@.checks),
{
    let ghost all = report@.checks;
    let total: usize = report.checks.len();
    let mut count: usize = 0;
    let mut i: usize = 0;
    assert(all.take(0) =~= Seq::<CheckView>::empty());
    while i < total
        invariant
            total == report.checks@.len(),
            i <= total,
            all == report@.checks,
            count == failures_in(all.take(i as int)),
            count <= i,
        decreases total - i,
    {
        assert(all.take(i + 1).drop_last() =~= all.take(i as int));
        assert(all.take(i + 1).last() == report.checks@[i as int]@);
        if report.checks[i].status == Status::Fail {
            count += 1;
        }
        i += 1;
    }
    assert(all.take(i as int) =~= all);
    count
}

/// All lines below the heading.
pub open spec fn body_lines(r: ReportView) -> Seq<Seq<char>> {
    verdict_lines(r.diagnosis) + chart_lines(r) + seq![Seq::empty(), "ПРОВЕРКИ ПО УРОВНЯМ"@]
        + layers_lines(r.checks, 7) + seq![
        Seq::empty(),
        "Итого проверок: "@ + dec(r.checks.len()) + ", из них не прошло: "@ + dec(
            failures_in(r.checks),
        ) + "."@,
    ]
}

fn add_body(out: &mut Vec<String>, report: &Report)
    ensures
        texts(final(out)@) == texts(old(out)@) + body_lines(report@),
{
    let ghost was = texts(out@);
    add_verdict(out, &report.diagnosis);
    add_chart(out, report);
    add_line(out, String::new());
    add_line(out, String::from_str("ПРОВЕРКИ ПО УРОВНЯМ"));
    let ghost begun = texts(out@);
    let layers = Layer::all();
    let mut i: usize = 0;
    assert(begun + layers_lines(report@.checks, 0) =~= begun);
    while i < 7
        invariant
            i <= 7,
            layers@ == all_layers(),
            texts(out@) == begun + layers_lines(report@.checks, i as int),
        decreases 7 - i,
    {
        add_layer(out, report, layers[i]);
        assert(texts(out@) =~= begun + layers_lines(report@.checks, i + 1));
        i += 1;
    }
    let failures = count_failures(report);
    add_line(out, String::new());
    add_line(
        out,
        String::from_str("Итого проверок: ").concat(
            decimal(report.checks.len() as u128).as_str(),
        ).concat(", из них не прошло: ").concat(decimal(failures as u128).as_str()).concat("."),
    );
    assert(texts(out@) =~= was + body_lines(report@));
}

/// All lines of the report.
pub open spec fn report_lines(r: ReportView, caps: Capabilities) -> Seq<Seq<char>> {
    heading(caps.icmp.title_text(), caps.elevated) + body_lines(r)
}

/// Puts the whole report together.
pub fn render(report: &Report, caps: Capabilities) -> (r: String)
    ensures
        r@ == ended(report_lines(report@, caps)),
{
    let mut out: Vec<String> = Vec::new();
    proof {
        lemma_texts_empty(out@);
    }
    add_heading(&mut out, caps.icmp.title(), caps.elevated);
    add_body(&mut out, report);
    assert(texts(out@) =~= report_lines(report@, caps));
    end_lines(&out)
}

/// The report is complete: of every check it holds the heading, both
/// explanations and all of the evidence.
pub proof fn nothing_is_left_out(r: ReportView, caps: Capabilities, i: int, line: Seq<char>)
    requires
        0 <= i < r.checks.len(),
        check_lines(r.checks[i]).contains(line),
    ensures
        report_lines(r, caps).contains(line),
{
    let c = r.checks[i];
    let own = of_layer(r.checks, c.layer);
    lemma_in_layer(r.checks, i);
    let k = choose|k: int| 0 <= k < own.len() && own[k] == c;
    lemma_all_check_lines(own, k, line);
    let n: int = match c.layer {
        Layer::L1Physical => 0,
        Layer::L2Link => 1,
        Layer::L3Network => 2,
        Layer::L4Transport => 3,
        Layer::L5Session => 4,
        Layer::L6Presentation => 5,
        Layer::L7Application => 6,
    };
    assert(all_layers()[n] == c.layer);
    lemma_contains_right(
        seq![
            Seq::<char>::empty(),
            c.layer.code_text() + " · "@ + c.layer.title_text() + " — "@ + c.layer.plain_text(),
        ],
        all_check_lines(own),
        line,
    );
    lemma_layers_lines(r.checks, n, 7, line);
    let front = verdict_lines(r.diagnosis) + chart_lines(r) + seq![
        Seq::empty(),
        "ПРОВЕРКИ ПО УРОВНЯМ"@,
    ];
    let tail = seq![
        Seq::<char>::empty(),
        "Итого проверок: "@ + dec(r.checks.len()) + ", из них не прошло: "@ + dec(
            failures_in(r.checks),
        ) + "."@,
    ];
    lemma_contains_right(front, layers_lines(r.checks, 7), line);
    lemma_contains_left(front + layers_lines(r.checks, 7), tail, line);
    assert(body_lines(r) =~= front + layers_lines(r.checks, 7) + tail);
    lemma_contains_right(heading(caps.icmp.title_text(), caps.elevated), body_lines(r), line);
}

proof fn lemma_contains_left(a: Seq<Seq<char>>, b: Seq<Seq<char>>, line: Seq<char>)
    requires
        a.contains(line),
    ensures
        (a + b).contains(line),
{
    let k = choose|k: int| 0 <= k < a.len() && a[k] == line;
    assert((a + b)[k] == line);
}

proof fn lemma_contains_right(a: Seq<Seq<char>>, b: Seq<Seq<char>>, line: Seq<char>)
    requires
        b.contains(line),
    ensures
        (a + b).contains(line),
{
    let k = choose|k: int| 0 <= k < b.len() && b[k] == line;
    assert((a + b)[a.len() + k] == line);
}

proof fn lemma_in_layer(checks: Seq<CheckView>, i: int)
    requires
        0 <= i < checks.len(),
    ensures
        of_layer(checks, checks[i].layer).contains(checks[i]),
{
    let c = checks[i];
    let layer = c.layer;
    let own = |c: CheckView| c.layer == layer;
    assert(own(checks[i]));
    checks.lemma_filter_contains(own, i);
}

proof fn lemma_all_check_lines(checks: Seq<CheckView>, k: int, line: Seq<char>)
    requires
        0 <= k < checks.len(),
        check_lines(checks[k]).contains(line),
    ensures
        all_check_lines(checks).contains(line),
    decreases checks.len(),
{
    let q = checks.drop_last();
    if k == checks.len() - 1 {
        lemma_contains_right(all_check_lines(q), check_lines(checks.last()), line);
    } else {
        assert(q[k] == checks[k]);
        lemma_all_check_lines(q, k, line);
        lemma_contains_left(all_check_lines(q), check_lines(checks.last()), line);
    }
}

proof fn lemma_layers_lines(checks: Seq<CheckView>, n: int, m: int, line: Seq<char>)
    requires
        0 <= n < m <= 7,
        layer_lines(checks, all_layers()[n]).contains(line),
    ensures
        layers_lines(checks, m).contains(line),
    decreases m,
{
    if n == m - 1 {
        lemma_contains_right(
            layers_lines(checks, m - 1),
            layer_lines(checks, all_layers()[n]),
            line,
        );
    } else {
        lemma_layers_lines(checks, n, m - 1, line);
        lemma_contains_left(
            layers_lines(checks, m - 1),
            layer_lines(checks, all_layers()[m - 1]),
            line,
        );
    }
}

/// The report counts the checks that failed, and no others.
pub proof fn failures_are_counted(checks: Seq<CheckView>)
    ensures
        failures_in(checks) == checks.filter(|c: CheckView| c.status == Status::Fail).len(),
    decreases checks.len(),
{
    reveal(Seq::filter);
    if checks.len() > 0 {
        failures_are_counted(checks.drop_last());
    }
}

/// What is printed of a check: its mark and title first, then the plain words,
/// then those for experts; words that are missing leave no line.
pub proof fn a_check_is_printed_in_order(c: CheckView)
    ensures
        ({
            let all = check_lines(c);
            let plain = if c.simple.len() > 0 {
                1int
            } else {
                0
            };
            let technical = if c.expert.len() > 0 {
                1int
            } else {
                0
            };
            &&& all.len() == 1 + plain + technical + evidence_lines(c.evidence).len()
            &&& all[0] == "  ["@ + right_in(c.status.glyph_text(), 2) + "] "@ + c.title
            &&& plain == 1 ==> all[1] == "       "@ + c.simple
            &&& technical == 1 ==> all[1 + plain] == "       технически: "@ + c.expert
            &&& all.skip(1 + plain + technical) == evidence_lines(c.evidence)
        }),
{
    let plain = if c.simple.len() > 0 {
        1int
    } else {
        0
    };
    let technical = if c.expert.len() > 0 {
        1int
    } else {
        0
    };
    assert(check_lines(c).skip(1 + plain + technical) =~= evidence_lines(c.evidence));
}

/// The report begins with the verdict's headline and its plain words, and every
/// piece of advice is in it.
pub proof fn advice_is_printed(d: DiagnosisView, i: int)
    requires
        0 <= i < d.actions.len(),
    ensures
        verdict_lines(d)[0] == "ВЫВОД: "@ + d.headline,
        verdict_lines(d)[1] == d.simple,
        verdict_lines(d).contains("  - "@ + d.actions[i]),
        verdict_lines(d).last() == "  - "@ + d.actions.last(),
{
    let all = verdict_lines(d);
    let tail = prefixed("  - "@, d.actions);
    let at = all.len() - tail.len() + i;
    assert(all[at] == tail[i]);
    assert(all[at] == "  - "@ + d.actions[i]);
}

/// The chart of the report has a line for every node, in order, and says between
/// which two nodes the line is broken, where it is.
pub proof fn the_break_is_printed(r: ReportView)
    ensures
        forall|i: int|
            0 <= i < r.nodes.len() ==> #[trigger] chart_lines(r)[i + 2] == node_line(r.nodes[i]),
        r.diagnosis.break_edge is None ==> chart_lines(r).len() == 2 + r.nodes.len(),
        r.diagnosis.break_edge matches Some((from, to)) ==> chart_lines(r).len() == 3
            + r.nodes.len() && chart_lines(r).last() == "  Обрыв на участке: "@ + from.title_text()
            + " -> "@ + to.title_text(),
{
}

/// The report says first how it was measured and with which rights.
pub proof fn the_report_says_how_it_was_measured(mode: Seq<char>)
    ensures
        heading(mode, true).len() == 4 && heading(mode, false).len() == 4,
        heading(mode, true)[1] == "Режим замеров: "@ + mode,
        heading(mode, false)[1] == "Режим замеров: "@ + mode,
        heading(mode, true)[2] == "Права администратора: "@ + "есть"@,
        heading(mode, false)[2] == "Права администратора: "@ + "нет"@,
        heading(mode, true)[3].len() == 0,
{
}

/// A node's line stands in columns: the mark, sixteen characters for the title,
/// eighteen for the address or a dash, and the caption.
pub proof fn nodes_stand_in_columns(n: NodeView)
    ensures
        n.address is Some ==> node_line(n) == "  ["@ + right_in(n.status.glyph_text(), 2) + "] "@
            + left_in(n.id.title_text(), 16) + " "@ + left_in(n.address->0, 18) + " "@ + n.subtitle,
        n.address is None ==> node_line(n) == "  ["@ + right_in(n.status.glyph_text(), 2) + "] "@
            + left_in(n.id.title_text(), 16) + " "@ + left_in("—"@, 18) + " "@ + n.subtitle,
{
}

/// Evidence is printed line by line, each line indented, the pieces in their
/// order and none left out.
pub proof fn evidence_is_printed_line_by_line(a: Seq<Seq<char>>, b: Seq<Seq<char>>)
    ensures
        evidence_lines(a + b) == evidence_lines(a) + evidence_lines(b),
        b.len() == 1 ==> evidence_lines(b) == lines_of(b[0]).map_values(
            |s: Seq<char>| "         "@ + s,
        ),
        evidence_lines(Seq::empty()).len() == 0,
    decreases b.len(),
{
    if b.len() == 0 {
        assert(a + b =~= a);
        assert(evidence_lines(a) + evidence_lines(b) =~= evidence_lines(a));
    } else {
        evidence_is_printed_line_by_line(a, b.drop_last());
        assert((a + b).drop_last() =~= a + b.drop_last());
        assert(evidence_lines(a + b) =~= evidence_lines(a) + evidence_lines(b));
        if b.len() == 1 {
            assert(b.drop_last() =~= Seq::<Seq<char>>::empty());
            assert(evidence_lines(b) =~= lines_of(b[0]).map_values(
                |s: Seq<char>| "         "@ + s,
            ));
        }
    }
}

/// The technical words of the verdict are printed where there are any, and
/// advice under its heading where there is any; nothing else follows.
pub proof fn the_verdict_is_printed_whole(d: DiagnosisView)
    ensures
        ({
            let technical = if d.expert.len() > 0 {
                1int
            } else {
                0
            };
            let all = verdict_lines(d);
            &&& technical == 1 ==> all[2] == "Технически: "@ + d.expert
            &&& d.actions.len() == 0 ==> all.len() == 2 + technical
            &&& d.actions.len() > 0 ==> all.len() == 4 + technical + d.actions.len() && all[2
                + technical].len() == 0 && all[3 + technical] == "Что можно сделать:"@
        }),
{
}

} // verus!
