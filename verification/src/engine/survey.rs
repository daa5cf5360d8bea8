//! The survey of all targets for blocking.

use vstd::prelude::*;
use vstd::string::StringExecFns;
use crate::bus::{EventView, Reporter};
use crate::model::{begun, CheckResult, CheckView, Layer, NodeId, Status};
use crate::scan::{join, joined, texts};
use crate::targets::{target_views, values_of, Target, TargetView};
use crate::text::{dec, decimal};
use super::bypass;
use super::censorship::{
    any_sign, filtered_with, finding_views, judge, pairs, probe_views, split_passes, too_soon,
    transit_signals, Finding, FindingView, Probe, Transit, Verdict,
};

verus! {

/// How many targets are probed at once. Probes mostly wait, so the limit is
/// there to spare the provider a burst of connections.
pub const PARALLEL_TARGETS: usize = 6;

/// How a verdict about a site is shown.
pub open spec fn shown_status(verdict: Verdict) -> Status {
    match verdict {
        Verdict::Reachable => Status::Good,
        Verdict::Unclear => Status::Skipped,
        Verdict::SiteDown => Status::Warn,
        _ => Status::Fail,
    }
}

pub fn status_for(verdict: Verdict) -> (r: Status)
    ensures
        r == shown_status(verdict),
{
    match verdict {
        Verdict::Reachable => Status::Good,
        Verdict::Unclear => Status::Skipped,
        Verdict::SiteDown => Status::Warn,
        _ => Status::Fail,
    }
}

/// The check of one site.
pub open spec fn site_check(f: FindingView) -> CheckView {
    begun(
        "l7.target."@ + f.domain,
        Layer::L7Application,
        NodeId::Target,
        f.domain + " — "@ + f.verdict.headline_text(),
    ).finished(shown_status(f.verdict), f.simple, f.expert).noted_all(f.evidence)
}

/// Reports the finding about one site.
pub fn report_finding(rep: &mut Reporter, finding: &Finding)
    ensures
        final(rep)@ == old(rep)@.push(EventView::Check(site_check(finding@))),
{
    let id = String::from_str("l7.target.").concat(finding.domain.as_str());
    let title = finding.domain.clone().concat(" — ").concat(finding.verdict.headline());
    let check = CheckResult::new(
        id.as_str(),
        Layer::L7Application,
        NodeId::Target,
        title.as_str(),
    ).finish(status_for(finding.verdict), finding.simple.as_str(), finding.expert.as_str());
    rep.check(check.with_all_evidence(&finding.evidence));
}

/// How large the next batch is, after `done` of `total` targets.
pub open spec fn batch_size(done: int, total: int) -> int {
    if total - done < PARALLEL_TARGETS {
        total - done
    } else {
        PARALLEL_TARGETS as int
    }
}

pub open spec fn batch_label(list: Seq<TargetView>, done: int) -> Seq<char> {
    let total = list.len() as int;
    let end = done + batch_size(done, total);
    "Проверяю блокировки: "@ + joined(values_of(list.subrange(done, end)), ", "@) + " ("@ + dec(
        end as nat,
    ) + "/"@ + dec(total as nat) + ")"@
}

/// The survey so far: each probe with its finding.
#[derive(Debug)]
pub struct Survey {
    pub probes: Vec<Probe>,
    pub findings: Vec<Finding>,
}

impl Survey {
    /// Whether every probe was judged.
    pub open spec fn well_formed(self) -> bool {
        &&& self.probes@.len() == self.findings@.len()
        &&& forall|i: int|
            0 <= i < self.probes@.len() ==> (#[trigger] self.findings@[i])@
                == self.probes@[i]@.finding(self.probes@[i]@.covered())
    }

    pub fn new() -> (r: Self)
        ensures
            r.well_formed(),
            r.probes@.len() == 0,
    {
        Survey { probes: Vec::new(), findings: Vec::new() }
    }

    /// Announces the next batch and returns how many targets are in it; zero
    /// where all are done.
    ///
    /// One after another, a list of twenty sites would take minutes: each one
    /// that cannot be reached means several timeouts.
    pub fn next_batch(&self, rep: &mut Reporter, items: &[Target]) -> (r: usize)
        requires
            self.well_formed(),
            self.probes@.len() <= items@.len(),
        ensures
            r == batch_size(self.probes@.len() as int, items@.len() as int),
            r == 0 ==> final(rep)@ == old(rep)@,
            r > 0 ==> final(rep)@ == old(rep)@.push(
                (EventView::Progress {
                    done: 6,
                    label: batch_label(target_views(items@), self.probes@.len() as int),
                }),
            ),
    {
        let ghost list = target_views(items@);
        let done: usize = self.probes.len();
        let total: usize = items.len();
        let size: usize = if total - done < PARALLEL_TARGETS {
            total - done
        } else {
            PARALLEL_TARGETS
        };
        if size == 0 {
            return 0;
        }
        let end: usize = done + size;
        let mut names: Vec<String> = Vec::new();
        let mut i: usize = done;
        while i < end
            invariant
                done <= i <= end <= items@.len(),
                names@.len() == i - done,
                forall|k: int|
                    0 <= k < i - done ==> (#[trigger] names@[k])@ == items@[done + k].value@,
            decreases end - i,
        {
            names.push(items[i].value.clone());
            i += 1;
        }
        assert(texts(names@) =~= values_of(list.subrange(done as int, end as int)));
        let label = String::from_str("Проверяю блокировки: ").concat(
            join(&names, ", ").as_str(),
        ).concat(" (").concat(decimal(end as u128).as_str()).concat("/").concat(
            decimal(total as u128).as_str(),
        ).concat(")");
        rep.progress(6, label.as_str());
        size
    }

    /// Judges a probe, reports the finding and keeps both.
    pub fn absorb(&mut self, rep: &mut Reporter, probe: Probe)
        requires
            old(self).well_formed(),
        ensures
            final(self).well_formed(),
            probe_views(final(self).probes@) == probe_views(old(self).probes@).push(probe@),
            final(rep)@ == old(rep)@.push(
                EventView::Check(site_check(probe@.finding(probe@.covered()))),
            ),
    {
        let ghost was = self.probes@;
        let finding = judge(&probe);
        report_finding(rep, &finding);
        self.probes.push(probe);
        self.findings.push(finding);
        assert(probe_views(self.probes@) =~= probe_views(was).push(probe@));
    }

    /// The signs of a filter on the way that the survey shows.
    pub open spec fn signs(self) -> Transit {
        let ps = probe_views(self.probes@);
        let fs = finding_views(self.findings@);
        Transit {
            total: ps.len() as usize,
            name_filtered: filtered_with(ps, fs, any_sign(), pairs(ps, fs)) as usize,
            injected: filtered_with(ps, fs, too_soon(), pairs(ps, fs)) as usize,
            split_helps: filtered_with(ps, fs, split_passes(), pairs(ps, fs)) as usize,
        }
    }

    /// Reports what the survey shows of a filter on the way.
    pub fn finish(&self, rep: &mut Reporter, bypass: &bypass::Report) -> (r: Transit)
        requires
            self.well_formed(),
        ensures
            r == self.signs(),
            final(rep)@ == old(rep)@ + filter_events(r, bypass@),
    {
        let transit = transit_signals(self.probes.as_slice(), self.findings.as_slice());
        report_transit(rep, transit, bypass);
        transit
    }
}

/// The check of filtering by name.
pub open spec fn filter_check(t: Transit, tools: Seq<bypass::FindingView>) -> CheckView {
    let check = begun(
        "l7.filter"@,
        Layer::L7Application,
        NodeId::Dpi,
        "Фильтрация по имени сайта"@,
    );
    if t.confident() {
        check.finished(Status::Fail, t.simple_text(), t.expert_text())
    } else if t.name_filtered > 0 {
        check.finished(Status::Warn, t.simple_text(), t.expert_text())
    } else {
        match bypass::first_dpi(tools) {
            Some(tool) => check.finished(
                Status::Warn,
                "Ни один сайт не обрывается по имени, но у вас работает "@ + tool
                    + " — средство, которое как раз и прячет имя сайта от фильтра. Пока оно включено, сказать, есть блокировки или нет, невозможно. Чтобы проверить, отключите его и повторите."@,
                t.expert_text()
                    + " Результат снят при активном обходе DPI, поэтому отрицательный вывод недостоверен."@,
            ),
            None => check.finished(
                Status::Good,
                "Ни один из проверенных сайтов не обрывается из-за своего имени — фильтрации по имени не видно."@,
                t.expert_text(),
            ),
        }
    }
}

pub open spec fn filter_caption(t: Transit, tools: Seq<bypass::FindingView>) -> Option<Seq<char>> {
    if t.confident() {
        Some("фильтрует по имени сайта"@)
    } else if t.name_filtered > 0 {
        Some("есть отдельные признаки"@)
    } else if bypass::first_dpi(tools) is Some {
        Some("скрыто работающим обходом"@)
    } else {
        None
    }
}

/// What is reported of filtering by name.
pub open spec fn filter_events(t: Transit, tools: Seq<bypass::FindingView>) -> Seq<EventView> {
    let check = EventView::Check(filter_check(t, tools));
    match filter_caption(t, tools) {
        Some(caption) => seq![
            EventView::Node { id: NodeId::Dpi, subtitle: caption, address: None },
            check,
        ],
        None => seq![check],
    }
}

/// Reports what signs of a filter on the way there are.
///
/// A working bypass hides a site's name from the filter. As long as it is on,
/// that nothing is blocked proves nothing, and to say so would be untrue.
pub fn report_transit(rep: &mut Reporter, transit: Transit, bypass: &bypass::Report)
    ensures
        final(rep)@ == old(rep)@ + filter_events(transit, bypass@),
{
    let ghost was = rep@;
    let check = CheckResult::new(
        "l7.filter",
        Layer::L7Application,
        NodeId::Dpi,
        "Фильтрация по имени сайта",
    );
    if transit.is_confident() {
        rep.node(NodeId::Dpi, "фильтрует по имени сайта", None);
        rep.check(
            check.finish(Status::Fail, transit.simple().as_str(), transit.expert().as_str()),
        );
    } else if transit.has_signals() {
        rep.node(NodeId::Dpi, "есть отдельные признаки", None);
        rep.check(
            check.finish(Status::Warn, transit.simple().as_str(), transit.expert().as_str()),
        );
    } else {
        match bypass.dpi_bypass_name() {
            Some(tool) => {
                rep.node(NodeId::Dpi, "скрыто работающим обходом", None);
                rep.check(
                    check.finish(
                        Status::Warn,
                        String::from_str(
                            "Ни один сайт не обрывается по имени, но у вас работает ",
                        ).concat(tool.as_str()).concat(
                            " — средство, которое как раз и прячет имя сайта от фильтра. Пока оно включено, сказать, есть блокировки или нет, невозможно. Чтобы проверить, отключите его и повторите.",
                        ).as_str(),
                        transit.expert().concat(
                            " Результат снят при активном обходе DPI, поэтому отрицательный вывод недостоверен.",
                        ).as_str(),
                    ),
                );
            },
            None => {
                rep.check(
                    check.finish(
                        Status::Good,
                        "Ни один из проверенных сайтов не обрывается из-за своего имени — фильтрации по имени не видно.",
                        transit.expert().as_str(),
                    ),
                );
            },
        }
    }
    assert(rep@ =~= was + filter_events(transit, bypass@));
}

/// What is reported where blocking cannot be surveyed: everything would break
/// for quite another reason.
pub open spec fn skipped_check() -> CheckView {
    begun("l7.filter"@, Layer::L7Application, NodeId::Dpi, "Блокировки"@).finished(
        Status::Skipped,
        "Проверка блокировок пропущена: сначала нужно, чтобы работал сам интернет."@,
        "Нет доступа к опорным узлам или к DNS — пробы неотличимы от общего обрыва."@,
    )
}

pub fn report_skipped(rep: &mut Reporter)
    ensures
        final(rep)@ == old(rep)@.push(EventView::Check(skipped_check())),
{
    rep.check(
        CheckResult::new("l7.filter", Layer::L7Application, NodeId::Dpi, "Блокировки").finish(
            Status::Skipped,
            "Проверка блокировок пропущена: сначала нужно, чтобы работал сам интернет.",
            "Нет доступа к опорным узлам или к DNS — пробы неотличимы от общего обрыва.",
        ),
    );
}

/// "Nothing is blocked" is never said while a bypass is at work.
pub proof fn bypass_forbids_a_clean_bill(t: Transit, tools: Seq<bypass::FindingView>)
    ensures
        bypass::first_dpi(tools) is Some ==> filter_check(t, tools).status != Status::Good,
{
}

/// How a verdict is shown: only a site that opens is good, one that could not be
/// tested is skipped, one that is down by itself is a warning, and everything
/// else is a failure.
pub proof fn verdicts_are_shown_as_they_are(f: FindingView)
    ensures
        site_check(f).status == (match f.verdict {
            Verdict::Reachable => Status::Good,
            Verdict::Unclear => Status::Skipped,
            Verdict::SiteDown => Status::Warn,
            Verdict::DnsSpoofed => Status::Fail,
            Verdict::NameFiltered => Status::Fail,
            Verdict::AddressBlocked => Status::Fail,
            Verdict::StubPage => Status::Fail,
            Verdict::CertificateSwapped => Status::Fail,
        }),
        site_check(f).id == "l7.target."@ + f.domain,
        site_check(f).node == NodeId::Target,
        site_check(f).simple == f.simple,
        site_check(f).expert == f.expert,
        site_check(f).evidence == f.evidence,
{
    assert(site_check(f).evidence =~= f.evidence);
}

/// Filtering is a failure exactly where there is confidence; single signs, and a
/// tool that hides names from a filter, leave a doubt; otherwise there is
/// nothing to see.
pub proof fn the_filter_is_judged_by_its_signs(t: Transit, tools: Seq<bypass::FindingView>)
    ensures
        ({
            let sure = t.name_filtered >= 2 && (t.injected > 0 || t.split_helps > 0);
            let hiding = exists|i: int|
                0 <= i < tools.len() && (#[trigger] tools[i]).kind
                    == bypass::BypassKind::DpiBypass;
            let status = filter_check(t, tools).status;
            &&& status == Status::Fail <==> sure
            &&& status == Status::Warn <==> !sure && (t.name_filtered > 0 || hiding)
            &&& status == Status::Good <==> t.name_filtered == 0 && !hiding
            &&& filter_caption(t, tools) is None <==> status == Status::Good
        }),
{
    bypass::the_first_hiding_tool_is_named(tools);
}

/// Batches follow each other without gaps: each has up to six targets, and is
/// empty only at the end of the list.
pub proof fn batches_cover_the_list(done: int, total: int)
    requires
        0 <= done <= total,
    ensures
        0 <= batch_size(done, total) <= 6,
        done + batch_size(done, total) <= total,
        batch_size(done, total) == 0 <==> done == total,
        total - done >= 6 ==> batch_size(done, total) == 6,
{
}

} // verus!
