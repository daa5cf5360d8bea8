//! A series of echo requests to one address, and what it shows.

use vstd::prelude::*;
use vstd::string::StringExecFns;
use crate::model::opt_text;
use crate::text::{dec, decimal};
use crate::time::Duration;
use super::icmp::{Reply, ReplyKind, ReplyView};
use super::trace::{format_rtt, rtt_text};

verus! {

/// How many echo requests go to one address: four are enough to see losses and
/// how far delays spread.
pub const PING_COUNT: usize = 4;

/// The result of a series of echo requests to one address.
#[derive(Debug)]
pub struct PingStats {
    pub sent: usize,
    pub received: usize,
    pub best: Option<Duration>,
    pub worst: Option<Duration>,
    /// The reaction that says most.
    pub kind: ReplyKind,
    /// What the transport had to say, if anything.
    pub detail: Option<String>,
}

#[verifier::ext_equal]
pub struct StatsView {
    pub sent: usize,
    pub received: usize,
    pub best: Option<Duration>,
    pub worst: Option<Duration>,
    pub kind: ReplyKind,
    pub detail: Option<Seq<char>>,
}

impl View for PingStats {
    type V = StatsView;

    open spec fn view(&self) -> StatsView {
        StatsView {
            sent: self.sent,
            received: self.received,
            best: self.best,
            worst: self.worst,
            kind: self.kind,
            detail: opt_text(self.detail),
        }
    }
}

impl StatsView {
    pub open spec fn best_notation(self) -> Seq<char> {
        match self.best {
            Some(d) => rtt_text(d),
            None => "—"@,
        }
    }

    pub open spec fn note(self) -> Seq<char> {
        match self.detail {
            Some(d) => " ("@ + d + ")"@,
            None => Seq::empty(),
        }
    }

    /// How far delays spread, where they do.
    pub open spec fn jitter(self) -> Seq<char> {
        match (self.best, self.worst) {
            (Some(b), Some(w)) => if w.nanos > b.nanos {
                ", разброс до "@ + dec((w.nanos - b.nanos) as nat / 1_000_000) + " мс"@
            } else {
                Seq::empty()
            },
            _ => Seq::empty(),
        }
    }

    pub open spec fn description(self) -> Seq<char> {
        if self.received == 0 {
            dec(self.sent as nat) + " из "@ + dec(self.sent as nat) + " запросов без ответа, "@
                + self.kind.description() + self.note()
        } else {
            "ответов "@ + dec(self.received as nat) + "/"@ + dec(self.sent as nat)
                + ", лучшее время "@ + self.best_notation() + self.jitter() + ", "@
                + self.kind.description() + self.note()
        }
    }
}

impl PingStats {
    pub fn best_text(&self) -> (r: String)
        ensures
            r@ == self@.best_notation(),
    {
        match self.best {
            Some(d) => format_rtt(d),
            None => String::from_str("—"),
        }
    }

    pub fn describe(&self) -> (r: String)
        ensures
            r@ == self@.description(),
    {
        let note = match &self.detail {
            Some(d) => String::from_str(" (").concat(d.as_str()).concat(")"),
            None => String::new(),
        };
        let sent = decimal(self.sent as u128);
        if self.received == 0 {
            return sent.clone().concat(" из ").concat(sent.as_str()).concat(
                " запросов без ответа, ",
            ).concat(self.kind.describe()).concat(note.as_str());
        }
        let jitter = match (self.best, self.worst) {
            (Some(b), Some(w)) => if w.nanos > b.nanos {
                String::from_str(", разброс до ").concat(
                    decimal((w.nanos - b.nanos) / 1_000_000).as_str(),
                ).concat(" мс")
            } else {
                String::new()
            },
            _ => String::new(),
        };
        String::from_str("ответов ").concat(decimal(self.received as u128).as_str()).concat(
            "/",
        ).concat(sent.as_str()).concat(", лучшее время ").concat(
            self.best_text().as_str(),
        ).concat(jitter.as_str()).concat(", ").concat(self.kind.describe()).concat(note.as_str())
    }
}

/// A series before any reply.
pub open spec fn no_replies() -> StatsView {
    StatsView {
        sent: PING_COUNT,
        received: 0,
        best: None,
        worst: None,
        kind: ReplyKind::Timeout,
        detail: None,
    }
}

/// A series after one more reply. Only echoes count as received; a refusal that
/// says something is remembered, as it explains more than silence.
pub open spec fn counted(stats: StatsView, reply: ReplyView) -> StatsView {
    let noted = StatsView {
        detail: match stats.detail {
            Some(d) => Some(d),
            None => reply.detail,
        },
        ..stats
    };
    if reply.kind == ReplyKind::Echo {
        StatsView {
            received: (stats.received + 1) as usize,
            kind: ReplyKind::Echo,
            best: match (stats.best, reply.rtt) {
                (Some(b), Some(t)) => Some(b.shorter_of(t)),
                (None, t) => t,
                (b, None) => b,
            },
            worst: match (stats.worst, reply.rtt) {
                (Some(w), Some(t)) => Some(w.longer_of(t)),
                (None, t) => t,
                (w, None) => w,
            },
            ..noted
        }
    } else if stats.kind == ReplyKind::Timeout && reply.kind.responded() {
        StatsView { kind: reply.kind, ..noted }
    } else {
        noted
    }
}

/// What a series of replies comes to.
pub open spec fn stats_of(replies: Seq<ReplyView>) -> StatsView
    decreases replies.len(),
{
    if replies.len() == 0 {
        no_replies()
    } else {
        counted(stats_of(replies.drop_last()), replies.last())
    }
}

pub open spec fn reply_views(replies: Seq<Reply>) -> Seq<ReplyView> {
    replies.map_values(|r: Reply| r@)
}

/// Sums a series of replies up.
pub fn ping_stats(replies: &Vec<Reply>) -> (r: PingStats)
    requires
        replies@.len() == PING_COUNT,
    ensures
        r@ == stats_of(reply_views(replies@)),
        r.received <= r.sent,
{
    let ghost views = reply_views(replies@);
    let mut stats = PingStats {
        sent: PING_COUNT,
        received: 0,
        best: None,
        worst: None,
        kind: ReplyKind::Timeout,
        detail: None,
    };
    let mut i: usize = 0;
    assert(views.take(0) =~= Seq::<ReplyView>::empty());
    while i < replies.len()
        invariant
            i <= replies@.len(),
            replies@.len() == PING_COUNT,
            views == reply_views(replies@),
            stats@ == stats_of(views.take(i as int)),
            stats.sent == PING_COUNT,
            stats.received <= i,
        decreases replies@.len() - i,
    {
        proof {
            assert(views.take(i + 1).drop_last() =~= views.take(i as int));
            assert(views.take(i + 1).last() == replies@[i as int]@);
        }
        let reply = &replies[i];
        if stats.detail.is_none() {
            stats.detail =
            match &reply.detail {
                Some(d) => Some(d.clone()),
                None => None,
            };
        }
        if reply.kind == ReplyKind::Echo {
            stats.received += 1;
            stats.kind = ReplyKind::Echo;
            match reply.rtt {
                Some(t) => {
                    stats.best =
                    Some(
                        match stats.best {
                            Some(b) => b.min(t),
                            None => t,
                        },
                    );
                    stats.worst =
                    Some(
                        match stats.worst {
                            Some(w) => w.max(t),
                            None => t,
                        },
                    );
                },
                None => {},
            }
        } else if stats.kind == ReplyKind::Timeout && reply.kind.got_response() {
            stats.kind = reply.kind;
        }
        i += 1;
    }
    assert(views.take(i as int) =~= views);
    stats
}

/// Whenever an echo came, the series is known for it, and the best time is not
/// above the worst.
pub proof fn echoes_decide(replies: Seq<ReplyView>)
    requires
        replies.len() <= PING_COUNT,
    ensures
        stats_of(replies).received <= replies.len(),
        (stats_of(replies).received > 0) == (stats_of(replies).kind == ReplyKind::Echo),
        (stats_of(replies).best is Some) == (stats_of(replies).worst is Some),
        stats_of(replies).best matches Some(b) ==> b.nanos <= stats_of(replies).worst->0.nanos,
    decreases replies.len(),
{
    if replies.len() > 0 {
        echoes_decide(replies.drop_last());
    }
}

proof fn lemma_received_is_a_count(replies: Seq<ReplyView>)
    requires
        replies.len() <= 4,
    ensures
        stats_of(replies).received == replies.filter(
            |r: ReplyView| r.kind == ReplyKind::Echo,
        ).len(),
        replies.filter(|r: ReplyView| r.kind == ReplyKind::Echo).len() <= replies.len(),
    decreases replies.len(),
{
    reveal(Seq::filter);
    if replies.len() > 0 {
        lemma_received_is_a_count(replies.drop_last());
    }
}

/// The figures of a series of echoes: how many came back, and the best and the
/// worst of their times. Only echoes count.
pub proof fn figures_are_those_of_the_echoes(replies: Seq<ReplyView>)
    requires
        replies.len() <= 4,
    ensures
        ({
            let s = stats_of(replies);
            &&& s.sent == 4
            &&& s.received == replies.filter(|r: ReplyView| r.kind == ReplyKind::Echo).len()
            &&& s.best is None <==> forall|i: int|
                0 <= i < replies.len() && (#[trigger] replies[i]).kind == ReplyKind::Echo
                    ==> replies[i].rtt is None
            &&& s.best is Some ==> exists|i: int|
                0 <= i < replies.len() && (#[trigger] replies[i]).kind == ReplyKind::Echo
                    && replies[i].rtt == s.best
            &&& s.worst is Some ==> exists|i: int|
                0 <= i < replies.len() && (#[trigger] replies[i]).kind == ReplyKind::Echo
                    && replies[i].rtt == s.worst
            &&& forall|i: int|
                0 <= i < replies.len() && (#[trigger] replies[i]).kind == ReplyKind::Echo
                    && replies[i].rtt is Some ==> s.best is Some && s.worst is Some
                    && s.best->0.nanos <= replies[i].rtt->0.nanos <= s.worst->0.nanos
        }),
    decreases replies.len(),
{
    lemma_received_is_a_count(replies);
    echoes_decide(replies);
    if replies.len() > 0 {
        let n = replies.len() - 1;
        let rest = replies.drop_last();
        figures_are_those_of_the_echoes(rest);
        echoes_decide(rest);
        let s = stats_of(replies);
        let t = stats_of(rest);
        assert forall|i: int| 0 <= i < n implies #[trigger] replies[i] == rest[i] by {}
        if s.best is Some {
            if s.best == t.best {
                let i = choose|i: int|
                    0 <= i < rest.len() && (#[trigger] rest[i]).kind == ReplyKind::Echo
                        && rest[i].rtt == t.best;
                assert(replies[i].rtt == s.best);
            } else {
                assert(replies[n].rtt == s.best);
            }
        }
        if s.worst is Some {
            if s.worst == t.worst {
                let i = choose|i: int|
                    0 <= i < rest.len() && (#[trigger] rest[i]).kind == ReplyKind::Echo
                        && rest[i].rtt == t.worst;
                assert(replies[i].rtt == s.worst);
            } else {
                assert(replies[n].rtt == s.worst);
            }
        }
        if s.best is None {
            assert forall|i: int|
                0 <= i < replies.len() && (
                #[trigger] replies[i]).kind == ReplyKind::Echo implies replies[i].rtt is None by {
                if i < n {
                    assert(rest[i].rtt is None);
                }
            }
        } else {
            let i = choose|i: int|
                0 <= i < replies.len() && (#[trigger] replies[i]).kind == ReplyKind::Echo
                    && replies[i].rtt == s.best;
            assert(replies[i].rtt is Some);
        }
        assert forall|i: int|
            0 <= i < replies.len() && (#[trigger] replies[i]).kind == ReplyKind::Echo
                && replies[i].rtt is Some implies s.best is Some && s.worst is Some
            && s.best->0.nanos <= replies[i].rtt->0.nanos <= s.worst->0.nanos by {
            if i < n {
                assert(rest[i].rtt is Some);
            }
        }
    }
}

/// What is said of a series: an echo, if there was one; else the first answer
/// of any kind; else silence. The first remark is kept.
pub proof fn the_first_answer_speaks(replies: Seq<ReplyView>)
    requires
        replies.len() <= 4,
    ensures
        ({
            let s = stats_of(replies);
            let silent = |r: ReplyView|
                r.kind == ReplyKind::Timeout || r.kind == ReplyKind::Error;
            &&& s.kind != ReplyKind::Error
            &&& s.kind == ReplyKind::Echo <==> exists|i: int|
                0 <= i < replies.len() && (#[trigger] replies[i]).kind == ReplyKind::Echo
            &&& s.kind == ReplyKind::Timeout <==> forall|i: int|
                0 <= i < replies.len() ==> silent(#[trigger] replies[i])
            &&& s.kind != ReplyKind::Echo && s.kind != ReplyKind::Timeout ==> exists|i: int|
                0 <= i < replies.len() && (#[trigger] replies[i]).kind == s.kind && (forall|j: int|
                    0 <= j < i ==> silent(#[trigger] replies[j]))
            &&& s.detail is None <==> forall|i: int|
                0 <= i < replies.len() ==> (#[trigger] replies[i]).detail is None
            &&& s.detail is Some ==> exists|i: int|
                0 <= i < replies.len() && (#[trigger] replies[i]).detail == s.detail && (forall|j:
                    int| 0 <= j < i ==> (#[trigger] replies[j]).detail is None)
        }),
    decreases replies.len(),
{
    if replies.len() > 0 {
        let n = replies.len() - 1;
        let rest = replies.drop_last();
        the_first_answer_speaks(rest);
        let s = stats_of(replies);
        let t = stats_of(rest);
        let silent = |r: ReplyView| r.kind == ReplyKind::Timeout || r.kind == ReplyKind::Error;
        assert forall|i: int| 0 <= i < n implies #[trigger] replies[i] == rest[i] by {}
        assert(replies[n] == replies.last());
        if t.kind == ReplyKind::Echo {
            let i = choose|i: int|
                0 <= i < rest.len() && (#[trigger] rest[i]).kind == ReplyKind::Echo;
            assert(replies[i].kind == ReplyKind::Echo);
        } else if t.kind != ReplyKind::Timeout {
            let i = choose|i: int|
                0 <= i < rest.len() && (#[trigger] rest[i]).kind == t.kind && (forall|j: int|
                    0 <= j < i ==> silent(#[trigger] rest[j]));
            assert(replies[i].kind == t.kind);
            assert forall|j: int| 0 <= j < i implies silent(#[trigger] replies[j]) by {
                assert(silent(rest[j]));
            }
            assert(!silent(rest[i]));
            assert(!silent(replies[i]));
        } else {
            assert forall|j: int| 0 <= j < n implies silent(#[trigger] replies[j]) by {
                assert(silent(rest[j]));
            }
        }
        if exists|i: int|
            0 <= i < replies.len() && (#[trigger] replies[i]).kind == ReplyKind::Echo {
            let i = choose|i: int|
                0 <= i < replies.len() && (#[trigger] replies[i]).kind == ReplyKind::Echo;
            if i < n {
                assert(rest[i].kind == ReplyKind::Echo);
            }
        }
        if forall|i: int| 0 <= i < replies.len() ==> silent(#[trigger] replies[i]) {
            assert(silent(replies[n]));
            assert forall|j: int| 0 <= j < n implies silent(#[trigger] rest[j]) by {
                assert(silent(replies[j]));
            }
        }
        if t.detail is Some {
            let i = choose|i: int|
                0 <= i < rest.len() && (#[trigger] rest[i]).detail == t.detail && (forall|j: int|
                    0 <= j < i ==> (#[trigger] rest[j]).detail is None);
            assert(replies[i].detail == s.detail);
            assert forall|j: int| 0 <= j < i implies (#[trigger] replies[j]).detail is None by {
                assert(rest[j].detail is None);
            }
        } else {
            assert forall|j: int| 0 <= j < n implies (#[trigger] replies[j]).detail is None by {
                assert(rest[j].detail is None);
            }
            assert(s.detail == replies[n].detail);
        }
        if forall|i: int| 0 <= i < replies.len() ==> (#[trigger] replies[i]).detail is None {
            assert forall|j: int| 0 <= j < n implies (#[trigger] rest[j]).detail is None by {
                assert(replies[j].detail is None);
            }
            assert(replies[n].detail is None);
        }
    }
}

/// Answers are told as a share of what was sent, with the best delay and, where
/// delays differ, by how much they do. Where none came, that is told.
pub proof fn echoes_are_told(s: StatsView)
    ensures
        s.received == 0 ==> s.description() == dec(s.sent as nat) + " из "@ + dec(s.sent as nat)
            + " запросов без ответа, "@ + s.kind.description() + s.note(),
        s.received > 0 ==> s.description() == "ответов "@ + dec(s.received as nat) + "/"@ + dec(
            s.sent as nat,
        ) + ", лучшее время "@ + s.best_notation() + s.jitter() + ", "@ + s.kind.description()
            + s.note(),
        s.best is Some && s.worst is Some && (s.worst->0).nanos > (s.best->0).nanos ==> s.jitter()
            == ", разброс до "@ + dec(
            ((s.worst->0).nanos - (s.best->0).nanos) as nat / 1_000_000,
        ) + " мс"@,
        s.best is None || s.worst is None || (s.worst->0).nanos <= (s.best->0).nanos
            ==> s.jitter().len() == 0,
        s.best matches Some(d) ==> s.best_notation() == rtt_text(d),
        s.best is None ==> s.best_notation() == "—"@,
{
}

} // verus!
