//! The basic types of a diagnosis: OSI layers, statuses, check results, the
//! nodes of the network chart and the final verdict.

use vstd::prelude::*;
use vstd::string::StringExecFns;
use crate::scan::{lemma_texts_empty, lemma_texts_push, texts};
use crate::text::same;

verus! {

/// The OSI layer that a check belongs to.
#[derive(Debug, Clone, Copy, PartialEq, Eq, PartialOrd, Ord, Hash, Structural)]
pub enum Layer {
    L1Physical,
    L2Link,
    L3Network,
    L4Transport,
    L5Session,
    L6Presentation,
    L7Application,
}

/// All layers, from the cable up.
pub open spec fn all_layers() -> Seq<Layer> {
    seq![
        Layer::L1Physical,
        Layer::L2Link,
        Layer::L3Network,
        Layer::L4Transport,
        Layer::L5Session,
        Layer::L6Presentation,
        Layer::L7Application,
    ]
}

impl Layer {
    pub fn all() -> (r: [Layer; 7])
        ensures
            r@ == all_layers(),
    {
        let r = [
            Layer::L1Physical,
            Layer::L2Link,
            Layer::L3Network,
            Layer::L4Transport,
            Layer::L5Session,
            Layer::L6Presentation,
            Layer::L7Application,
        ];
        assert(r@ =~= all_layers());
        r
    }

    pub open spec fn code_text(self) -> Seq<char> {
        match self {
            Layer::L1Physical => "L1"@,
            Layer::L2Link => "L2"@,
            Layer::L3Network => "L3"@,
            Layer::L4Transport => "L4"@,
            Layer::L5Session => "L5"@,
            Layer::L6Presentation => "L6"@,
            Layer::L7Application => "L7"@,
        }
    }

    /// A short mark such as "L3".
    pub fn code(self) -> (r: &'static str)
        ensures
            r@ == self.code_text(),
    {
        match self {
            Layer::L1Physical => "L1",
            Layer::L2Link => "L2",
            Layer::L3Network => "L3",
            Layer::L4Transport => "L4",
            Layer::L5Session => "L5",
            Layer::L6Presentation => "L6",
            Layer::L7Application => "L7",
        }
    }

    pub open spec fn title_text(self) -> Seq<char> {
        match self {
            Layer::L1Physical => "Физический"@,
            Layer::L2Link => "Канальный"@,
            Layer::L3Network => "Сетевой"@,
            Layer::L4Transport => "Транспортный"@,
            Layer::L5Session => "Сеансовый"@,
            Layer::L6Presentation => "Представления"@,
            Layer::L7Application => "Прикладной"@,
        }
    }

    /// The layer's name for a network engineer.
    pub fn title(self) -> (r: &'static str)
        ensures
            r@ == self.title_text(),
    {
        match self {
            Layer::L1Physical => "Физический",
            Layer::L2Link => "Канальный",
            Layer::L3Network => "Сетевой",
            Layer::L4Transport => "Транспортный",
            Layer::L5Session => "Сеансовый",
            Layer::L6Presentation => "Представления",
            Layer::L7Application => "Прикладной",
        }
    }

    pub open spec fn plain_text(self) -> Seq<char> {
        match self {
            Layer::L1Physical => "кабель, Wi-Fi, сама «железка»"@,
            Layer::L2Link => "связь с роутером в вашей квартире"@,
            Layer::L3Network => "адреса и маршрут до интернета"@,
            Layer::L4Transport => "соединения с серверами по портам"@,
            Layer::L5Session => "установка и удержание сессии"@,
            Layer::L6Presentation => "шифрование и сертификаты"@,
            Layer::L7Application => "сайты, DNS-имена, приложения"@,
        }
    }

    /// The same in plain words.
    pub fn plain(self) -> (r: &'static str)
        ensures
            r@ == self.plain_text(),
    {
        match self {
            Layer::L1Physical => "кабель, Wi-Fi, сама «железка»",
            Layer::L2Link => "связь с роутером в вашей квартире",
            Layer::L3Network => "адреса и маршрут до интернета",
            Layer::L4Transport => "соединения с серверами по портам",
            Layer::L5Session => "установка и удержание сессии",
            Layer::L6Presentation => "шифрование и сертификаты",
            Layer::L7Application => "сайты, DNS-имена, приложения",
        }
    }
}

/// The state of a check or of a node of the chart.
#[derive(Debug, Clone, Copy, PartialEq, Eq, Structural)]
pub enum Status {
    /// Not started yet.
    Pending,
    /// Being checked right now.
    Running,
    /// Everything is in order.
    Good,
    /// Works, but with problems.
    Warn,
    /// Does not work.
    Fail,
    /// Skipped, with an explanation why.
    Skipped,
}

impl Status {
    pub open spec fn label_text(self) -> Seq<char> {
        match self {
            Status::Pending => "ожидает"@,
            Status::Running => "идёт проверка"@,
            Status::Good => "в порядке"@,
            Status::Warn => "есть замечания"@,
            Status::Fail => "не работает"@,
            Status::Skipped => "пропущено"@,
        }
    }

    pub fn label(self) -> (r: &'static str)
        ensures
            r@ == self.label_text(),
    {
        match self {
            Status::Pending => "ожидает",
            Status::Running => "идёт проверка",
            Status::Good => "в порядке",
            Status::Warn => "есть замечания",
            Status::Fail => "не работает",
            Status::Skipped => "пропущено",
        }
    }

    pub open spec fn glyph_text(self) -> Seq<char> {
        match self {
            Status::Pending => "·"@,
            Status::Running => "…"@,
            Status::Good => "OK"@,
            Status::Warn => "!"@,
            Status::Fail => "X"@,
            Status::Skipped => "–"@,
        }
    }

    /// A mark for a line of the report, so that colour is not the only thing
    /// that carries the meaning.
    pub fn glyph(self) -> (r: &'static str)
        ensures
            r@ == self.glyph_text(),
    {
        match self {
            Status::Pending => "·",
            Status::Running => "…",
            Status::Good => "OK",
            Status::Warn => "!",
            Status::Fail => "X",
            Status::Skipped => "–",
        }
    }

    /// How bad a status is.
    pub open spec fn rank(self) -> nat {
        match self {
            Status::Pending => 0,
            Status::Skipped => 1,
            Status::Running => 2,
            Status::Good => 3,
            Status::Warn => 4,
            Status::Fail => 5,
        }
    }

    pub open spec fn worse_of(self, other: Status) -> Status {
        if other.rank() > self.rank() {
            other
        } else {
            self
        }
    }

    fn rank_number(self) -> (r: u8)
        ensures
            r == self.rank(),
    {
        match self {
            Status::Pending => 0,
            Status::Skipped => 1,
            Status::Running => 2,
            Status::Good => 3,
            Status::Warn => 4,
            Status::Fail => 5,
        }
    }

    /// The worse of two statuses; it folds a list of checks into the status
    /// of a node.
    pub fn worse(self, other: Status) -> (r: Status)
        ensures
            r == self.worse_of(other),
    {
        if other.rank_number() > self.rank_number() {
            other
        } else {
            self
        }
    }
}

/// The worse of two statuses does not depend on their order, nor the worst of
/// three on how they are grouped; a check that was not started weighs nothing.
pub proof fn worse_is_a_maximum(a: Status, b: Status, c: Status)
    ensures
        a.worse_of(b) == b.worse_of(a),
        a.worse_of(b).worse_of(c) == a.worse_of(b.worse_of(c)),
        a.worse_of(a) == a,
        Status::Pending.worse_of(a) == a,
        a.worse_of(b).rank() >= a.rank() && a.worse_of(b).rank() >= b.rank(),
{
}

/// A node of the network chart, from the computer to the site.
#[derive(Debug, Clone, Copy, PartialEq, Eq, Hash, Structural)]
pub enum NodeId {
    /// The user's computer.
    Pc,
    /// The home router or access point.
    Router,
    /// The provider's network.
    Provider,
    /// Traffic filters (DPI).
    Dpi,
    /// The internet as such, DNS included.
    Internet,
    /// The site under test.
    Target,
}

/// The nodes from left to right.
pub open spec fn chain() -> Seq<NodeId> {
    seq![
        NodeId::Pc,
        NodeId::Router,
        NodeId::Provider,
        NodeId::Dpi,
        NodeId::Internet,
        NodeId::Target,
    ]
}

impl NodeId {
    pub fn chain() -> (r: [NodeId; 6])
        ensures
            r@ == chain(),
    {
        let r = [
            NodeId::Pc,
            NodeId::Router,
            NodeId::Provider,
            NodeId::Dpi,
            NodeId::Internet,
            NodeId::Target,
        ];
        assert(r@ =~= chain());
        r
    }

    pub open spec fn title_text(self) -> Seq<char> {
        match self {
            NodeId::Pc => "Ваш компьютер"@,
            NodeId::Router => "Роутер"@,
            NodeId::Provider => "Провайдер"@,
            NodeId::Dpi => "Фильтрация"@,
            NodeId::Internet => "Интернет"@,
            NodeId::Target => "Сайт"@,
        }
    }

    pub fn title(self) -> (r: &'static str)
        ensures
            r@ == self.title_text(),
    {
        match self {
            NodeId::Pc => "Ваш компьютер",
            NodeId::Router => "Роутер",
            NodeId::Provider => "Провайдер",
            NodeId::Dpi => "Фильтрация",
            NodeId::Internet => "Интернет",
            NodeId::Target => "Сайт",
        }
    }
}

/// The text of an optional string.
pub open spec fn opt_text(s: Option<String>) -> Option<Seq<char>> {
    match s {
        Some(s) => Some(s@),
        None => None,
    }
}

/// The view of an optional value.
pub open spec fn opt_view<T: View>(v: Option<T>) -> Option<T::V> {
    match v {
        Some(v) => Some(v@),
        None => None,
    }
}

/// A list of texts with one more, if there is one.
pub open spec fn with_note(list: Seq<Seq<char>>, line: Option<Seq<char>>) -> Seq<Seq<char>> {
    match line {
        Some(s) => list.push(s),
        None => list,
    }
}

/// Adds a line to a list, if there is one.
pub fn note(list: &mut Vec<String>, line: Option<String>)
    ensures
        texts(final(list)@) == with_note(texts(old(list)@), opt_text(line)),
{
    match line {
        Some(s) => {
            proof {
                lemma_texts_push(list@, s);
            }
            list.push(s);
        },
        None => {},
    }
}

/// The state of a node: its status, caption and address.
#[derive(Debug, Clone)]
pub struct NodeState {
    pub id: NodeId,
    pub status: Status,
    /// What stands under the node's name, such as an interface's name.
    pub subtitle: String,
    /// The node's IP address, where it is known.
    pub address: Option<String>,
}

#[verifier::ext_equal]
pub struct NodeView {
    pub id: NodeId,
    pub status: Status,
    pub subtitle: Seq<char>,
    pub address: Option<Seq<char>>,
}

impl View for NodeState {
    type V = NodeView;

    open spec fn view(&self) -> NodeView {
        NodeView {
            id: self.id,
            status: self.status,
            subtitle: self.subtitle@,
            address: opt_text(self.address),
        }
    }
}

/// A node of which nothing is known yet.
pub open spec fn blank_node(id: NodeId) -> NodeView {
    NodeView { id, status: Status::Pending, subtitle: Seq::empty(), address: None }
}

impl NodeState {
    pub fn new(id: NodeId) -> (r: Self)
        ensures
            r@ == blank_node(id),
    {
        NodeState { id, status: Status::Pending, subtitle: String::new(), address: None }
    }
}

/// The result of one check. It is always explained twice: for a person and
/// for a network engineer.
#[derive(Debug, Clone)]
pub struct CheckResult {
    /// A stable identifier, by which a line already shown is updated.
    pub id: String,
    pub layer: Layer,
    pub node: NodeId,
    pub status: Status,
    /// The heading of the report line.
    pub title: String,
    /// The explanation for a person who knows nothing of networks.
    pub simple: String,
    /// The explanation for one who does.
    pub expert: String,
    /// Raw data: addresses, error codes, timings.
    pub evidence: Vec<String>,
}

#[verifier::ext_equal]
pub struct CheckView {
    pub id: Seq<char>,
    pub layer: Layer,
    pub node: NodeId,
    pub status: Status,
    pub title: Seq<char>,
    pub simple: Seq<char>,
    pub expert: Seq<char>,
    pub evidence: Seq<Seq<char>>,
}

impl View for CheckResult {
    type V = CheckView;

    open spec fn view(&self) -> CheckView {
        CheckView {
            id: self.id@,
            layer: self.layer,
            node: self.node,
            status: self.status,
            title: self.title@,
            simple: self.simple@,
            expert: self.expert@,
            evidence: texts(self.evidence@),
        }
    }
}

/// A check that has just begun.
pub open spec fn begun(id: Seq<char>, layer: Layer, node: NodeId, title: Seq<char>) -> CheckView {
    CheckView {
        id,
        layer,
        node,
        status: Status::Running,
        title,
        simple: Seq::empty(),
        expert: Seq::empty(),
        evidence: Seq::empty(),
    }
}

impl CheckView {
    /// The check with its outcome.
    pub open spec fn finished(
        self,
        status: Status,
        simple: Seq<char>,
        expert: Seq<char>,
    ) -> CheckView {
        CheckView { status, simple, expert, ..self }
    }

    /// The check with one more line of evidence.
    pub open spec fn noted(self, line: Seq<char>) -> CheckView {
        CheckView { evidence: self.evidence.push(line), ..self }
    }

    /// The check with further lines of evidence.
    pub open spec fn noted_all(self, lines: Seq<Seq<char>>) -> CheckView {
        CheckView { evidence: self.evidence + lines, ..self }
    }
}

impl CheckResult {
    pub fn new(id: &str, layer: Layer, node: NodeId, title: &str) -> (r: Self)
        ensures
            r@ == begun(id@, layer, node, title@),
    {
        let r = CheckResult {
            id: id.to_owned(),
            layer,
            node,
            status: Status::Running,
            title: title.to_owned(),
            simple: String::new(),
            expert: String::new(),
            evidence: Vec::new(),
        };
        proof {
            lemma_texts_empty(r.evidence@);
        }
        r
    }

    pub fn finish(self, status: Status, simple: &str, expert: &str) -> (r: Self)
        ensures
            r@ == self@.finished(status, simple@, expert@),
    {
        let mut r = self;
        r.status = status;
        r.simple = simple.to_owned();
        r.expert = expert.to_owned();
        r
    }

    pub fn with_evidence(self, line: &str) -> (r: Self)
        ensures
            r@ == self@.noted(line@),
    {
        let mut r = self;
        let note = line.to_owned();
        proof {
            lemma_texts_push(r.evidence@, note);
        }
        r.evidence.push(note);
        r
    }

    /// Adds several lines of evidence at once.
    pub fn with_all_evidence(self, lines: &Vec<String>) -> (r: Self)
        ensures
            r@ == self@.noted_all(texts(lines@)),
    {
        let mut r = self;
        let mut i: usize = 0;
        assert(texts(lines@).take(0) =~= Seq::<Seq<char>>::empty());
        assert(self@.evidence + Seq::<Seq<char>>::empty() =~= self@.evidence);
        while i < lines.len()
            invariant
                i <= lines@.len(),
                r@ == self@.noted_all(texts(lines@).take(i as int)),
            decreases lines@.len() - i,
        {
            let note = lines[i].clone();
            proof {
                lemma_texts_push(r.evidence@, note);
                assert(texts(lines@).take(i + 1) =~= texts(lines@).take(i as int).push(note@));
                assert(self@.evidence + texts(lines@).take(i as int).push(note@) =~= (
                self@.evidence + texts(lines@).take(i as int)).push(note@));
            }
            r.evidence.push(note);
            i += 1;
        }
        assert(texts(lines@).take(i as int) =~= texts(lines@));
        r
    }
}

/// The conclusion: what is broken, where, and what to do about it.
#[derive(Debug, Clone)]
pub struct Diagnosis {
    /// One phrase in large print.
    pub headline: String,
    pub simple: String,
    pub expert: String,
    /// Concrete steps for the user.
    pub actions: Vec<String>,
    /// The edge of the chart that is broken: traffic reaches the first node
    /// but does not get through to the second.
    pub break_edge: Option<(NodeId, NodeId)>,
    pub status: Status,
}

#[verifier::ext_equal]
pub struct DiagnosisView {
    pub headline: Seq<char>,
    pub simple: Seq<char>,
    pub expert: Seq<char>,
    pub actions: Seq<Seq<char>>,
    pub break_edge: Option<(NodeId, NodeId)>,
    pub status: Status,
}

impl View for Diagnosis {
    type V = DiagnosisView;

    open spec fn view(&self) -> DiagnosisView {
        DiagnosisView {
            headline: self.headline@,
            simple: self.simple@,
            expert: self.expert@,
            actions: texts(self.actions@),
            break_edge: self.break_edge,
            status: self.status,
        }
    }
}

pub open spec fn unknown_diagnosis() -> DiagnosisView {
    DiagnosisView {
        headline: "Диагностика ещё не запускалась"@,
        simple: "Нажмите «Проверить», чтобы выяснить состояние подключения."@,
        expert: Seq::empty(),
        actions: Seq::empty(),
        break_edge: None,
        status: Status::Pending,
    }
}

impl Diagnosis {
    pub fn unknown() -> (r: Self)
        ensures
            r@ == unknown_diagnosis(),
    {
        let r = Diagnosis {
            headline: String::from_str("Диагностика ещё не запускалась"),
            simple: String::from_str(
                "Нажмите «Проверить», чтобы выяснить состояние подключения.",
            ),
            expert: String::new(),
            actions: Vec::new(),
            break_edge: None,
            status: Status::Pending,
        };
        proof {
            lemma_texts_empty(r.actions@);
        }
        r
    }
}

/// The whole picture: the chart, all checks and the verdict.
#[derive(Debug, Clone)]
pub struct Report {
    pub nodes: Vec<NodeState>,
    pub checks: Vec<CheckResult>,
    pub diagnosis: Diagnosis,
}

#[verifier::ext_equal]
pub struct ReportView {
    pub nodes: Seq<NodeView>,
    pub checks: Seq<CheckView>,
    pub diagnosis: DiagnosisView,
}

pub open spec fn node_views(nodes: Seq<NodeState>) -> Seq<NodeView> {
    nodes.map_values(|n: NodeState| n@)
}

pub open spec fn check_views(checks: Seq<CheckResult>) -> Seq<CheckView> {
    checks.map_values(|c: CheckResult| c@)
}

impl View for Report {
    type V = ReportView;

    open spec fn view(&self) -> ReportView {
        ReportView {
            nodes: node_views(self.nodes@),
            checks: check_views(self.checks@),
            diagnosis: self.diagnosis@,
        }
    }
}

/// The worst status among the checks of a node; a node without checks is
/// waiting.
pub open spec fn rolled_up(checks: Seq<CheckView>, node: NodeId) -> Status
    decreases checks.len(),
{
    if checks.len() == 0 {
        Status::Pending
    } else if checks.last().node == node {
        rolled_up(checks.drop_last(), node).worse_of(checks.last().status)
    } else {
        rolled_up(checks.drop_last(), node)
    }
}

/// The position of the first check with an identifier, or the list's length.
pub open spec fn check_at(checks: Seq<CheckView>, id: Seq<char>) -> int
    decreases checks.len(),
{
    if checks.len() == 0 || checks[0].id == id {
        0
    } else {
        1 + check_at(checks.drop_first(), id)
    }
}

/// The position of the first node with an identifier, or the list's length.
pub open spec fn node_at(nodes: Seq<NodeView>, id: NodeId) -> int
    decreases nodes.len(),
{
    if nodes.len() == 0 || nodes[0].id == id {
        0
    } else {
        1 + node_at(nodes.drop_first(), id)
    }
}

pub proof fn lemma_check_at(checks: Seq<CheckView>, id: Seq<char>, i: int)
    requires
        0 <= i <= checks.len(),
        forall|j: int| 0 <= j < i ==> (#[trigger] checks[j]).id != id,
        i < checks.len() ==> checks[i].id == id,
    ensures
        check_at(checks, id) == i,
    decreases checks.len(),
{
    if i > 0 {
        assert(checks[0].id != id);
        assert forall|j: int| 0 <= j < i - 1 implies (#[trigger] checks.drop_first()[j]).id
            != id by {
            assert(checks.drop_first()[j] == checks[j + 1]);
        }
        lemma_check_at(checks.drop_first(), id, i - 1);
    }
}

pub proof fn lemma_check_at_bounds(checks: Seq<CheckView>, id: Seq<char>)
    ensures
        0 <= check_at(checks, id) <= checks.len(),
        forall|j: int| 0 <= j < check_at(checks, id) ==> (#[trigger] checks[j]).id != id,
        check_at(checks, id) < checks.len() ==> checks[check_at(checks, id)].id == id,
    decreases checks.len(),
{
    if checks.len() > 0 && checks[0].id != id {
        let t = checks.drop_first();
        lemma_check_at_bounds(t, id);
        assert forall|j: int| 0 <= j < check_at(checks, id) implies (#[trigger] checks[j]).id
            != id by {
            if j > 0 {
                assert(t[j - 1] == checks[j]);
            }
        }
    }
}

pub proof fn lemma_node_at(nodes: Seq<NodeView>, id: NodeId, i: int)
    requires
        0 <= i <= nodes.len(),
        forall|j: int| 0 <= j < i ==> (#[trigger] nodes[j]).id != id,
        i < nodes.len() ==> nodes[i].id == id,
    ensures
        node_at(nodes, id) == i,
    decreases nodes.len(),
{
    if i > 0 {
        assert(nodes[0].id != id);
        assert forall|j: int| 0 <= j < i - 1 implies (#[trigger] nodes.drop_first()[j]).id
            != id by {
            assert(nodes.drop_first()[j] == nodes[j + 1]);
        }
        lemma_node_at(nodes.drop_first(), id, i - 1);
    }
}

pub proof fn lemma_node_at_bounds(nodes: Seq<NodeView>, id: NodeId)
    ensures
        0 <= node_at(nodes, id) <= nodes.len(),
        node_at(nodes, id) < nodes.len() ==> nodes[node_at(nodes, id)].id == id,
        forall|j: int| 0 <= j < node_at(nodes, id) ==> (#[trigger] nodes[j]).id != id,
    decreases nodes.len(),
{
    if nodes.len() > 0 && nodes[0].id != id {
        let t = nodes.drop_first();
        lemma_node_at_bounds(t, id);
        assert forall|j: int| 0 <= j < node_at(nodes, id) implies (#[trigger] nodes[j]).id
            != id by {
            if j > 0 {
                assert(t[j - 1] == nodes[j]);
            }
        }
    }
}

impl ReportView {
    /// Whether the chart holds exactly the nodes of the chain, in its order.
    pub open spec fn well_formed(self) -> bool {
        &&& self.nodes.len() == chain().len()
        &&& forall|i: int| 0 <= i < chain().len() ==> (#[trigger] self.nodes[i]).id == chain()[i]
    }

    /// Whether the chart shows a node.
    pub open spec fn shows(self, id: NodeId) -> bool {
        node_at(self.nodes, id) < self.nodes.len()
    }

    /// The checks after a result came in: it takes the place of the first
    /// check with the same identifier, or goes to the end.
    pub open spec fn checks_with(self, c: CheckView) -> Seq<CheckView> {
        let i = check_at(self.checks, c.id);
        if i < self.checks.len() {
            self.checks.update(i, c)
        } else {
            self.checks.push(c)
        }
    }

    /// The picture after a result came in.
    pub open spec fn applied(self, c: CheckView) -> ReportView {
        let checks = self.checks_with(c);
        let i = node_at(self.nodes, c.node);
        ReportView {
            checks,
            nodes: self.nodes.update(
                i,
                NodeView { status: rolled_up(checks, c.node), ..self.nodes[i] },
            ),
            ..self
        }
    }

    /// The picture after a node's caption was made precise.
    pub open spec fn captioned(
        self,
        id: NodeId,
        subtitle: Seq<char>,
        address: Option<Seq<char>>,
    ) -> ReportView {
        let i = node_at(self.nodes, id);
        let node = self.nodes[i];
        ReportView {
            nodes: self.nodes.update(
                i,
                NodeView {
                    subtitle,
                    address: if address is Some {
                        address
                    } else {
                        node.address
                    },
                    ..node
                },
            ),
            ..self
        }
    }
}

/// The picture before anything was checked.
pub open spec fn blank_report() -> ReportView {
    ReportView {
        nodes: chain().map_values(|id: NodeId| blank_node(id)),
        checks: Seq::empty(),
        diagnosis: unknown_diagnosis(),
    }
}

/// A chart of the chain shows every node.
pub proof fn lemma_well_formed_shows(r: ReportView, id: NodeId)
    requires
        r.well_formed(),
    ensures
        r.shows(id),
        0 <= node_at(r.nodes, id) < r.nodes.len(),
        r.nodes[node_at(r.nodes, id)].id == id,
{
    lemma_node_at_bounds(r.nodes, id);
    let i: int = match id {
        NodeId::Pc => 0,
        NodeId::Router => 1,
        NodeId::Provider => 2,
        NodeId::Dpi => 3,
        NodeId::Internet => 4,
        NodeId::Target => 5,
    };
    assert(chain()[i] == id);
    assert(r.nodes[i].id == id);
}

impl Report {
    pub fn new() -> (r: Self)
        ensures
            r@ == blank_report(),
            r@.well_formed(),
    {
        let order = NodeId::chain();
        let mut nodes: Vec<NodeState> = Vec::new();
        let mut i: usize = 0;
        while i < 6
            invariant
                i <= 6,
                order@ == chain(),
                nodes@.len() == i,
                forall|j: int| 0 <= j < i ==> (#[trigger] nodes@[j])@ == blank_node(chain()[j]),
            decreases 6 - i,
        {
            nodes.push(NodeState::new(order[i]));
            i += 1;
        }
        let r = Report { nodes, checks: Vec::new(), diagnosis: Diagnosis::unknown() };
        assert(r@.nodes =~= blank_report().nodes);
        assert(r@.checks =~= blank_report().checks);
        r
    }

    /// The chart's node with an identifier, to be changed in place.
    pub fn node_mut(&mut self, id: NodeId) -> (r: &mut NodeState)
        requires
            old(self)@.shows(id),
        ensures
            0 <= node_at(old(self)@.nodes, id) < old(self).nodes@.len(),
            *r == old(self).nodes@[node_at(old(self)@.nodes, id)],
            r.id == id,
            final(self).nodes@ == old(self).nodes@.update(
                node_at(old(self)@.nodes, id),
                *final(r),
            ),
            final(self).checks == old(self).checks,
            final(self).diagnosis == old(self).diagnosis,
    {
        let ghost views = self@.nodes;
        let mut i: usize = 0;
        proof {
            lemma_node_at_bounds(views, id);
        }
        while i < self.nodes.len() && self.nodes[i].id != id
            invariant
                i <= self.nodes@.len(),
                views == node_views(self.nodes@),
                forall|j: int| 0 <= j < i ==> (#[trigger] views[j]).id != id,
            decreases self.nodes@.len() - i,
        {
            assert(views[i as int] == self.nodes@[i as int]@);
            i += 1;
        }
        proof {
            if i < self.nodes@.len() {
                assert(views[i as int] == self.nodes@[i as int]@);
            }
            lemma_node_at(views, id, i as int);
        }
        &mut self.nodes[i]
    }

    /// Takes a result in, or puts it in the place of the one with the same
    /// identifier, and brings the status of its node up to date.
    pub fn apply(&mut self, result: CheckResult)
        requires
            old(self)@.shows(result.node),
        ensures
            final(self)@ == old(self)@.applied(result@),
    {
        let node = result.node;
        let ghost before = self@;
        let ghost c = result@;
        let mut i: usize = 0;
        while i < self.checks.len() && !same(self.checks[i].id.as_str(), result.id.as_str())
            invariant
                i <= self.checks@.len(),
                before.checks == check_views(self.checks@),
                c == result@,
                forall|j: int| 0 <= j < i ==> (#[trigger] before.checks[j]).id != c.id,
            decreases self.checks@.len() - i,
        {
            assert(before.checks[i as int] == self.checks@[i as int]@);
            i += 1;
        }
        proof {
            if i < self.checks@.len() {
                assert(before.checks[i as int] == self.checks@[i as int]@);
            }
            lemma_check_at(before.checks, c.id, i as int);
        }
        if i < self.checks.len() {
            self.checks.set(i, result);
        } else {
            self.checks.push(result);
        }
        let ghost checks = before.checks_with(c);
        assert(check_views(self.checks@) =~= checks);
        let mut rolled = Status::Pending;
        let mut k: usize = 0;
        assert(checks.take(0) =~= Seq::<CheckView>::empty());
        while k < self.checks.len()
            invariant
                k <= self.checks@.len(),
                checks == check_views(self.checks@),
                rolled == rolled_up(checks.take(k as int), node),
            decreases self.checks@.len() - k,
        {
            assert(checks.take(k + 1).drop_last() =~= checks.take(k as int));
            assert(checks.take(k + 1).last() == self.checks@[k as int]@);
            if self.checks[k].node == node {
                rolled = rolled.worse(self.checks[k].status);
            }
            k += 1;
        }
        assert(checks.take(k as int) =~= checks);
        let ghost mid = self.nodes@;
        self.node_mut(node).status = rolled;
        assert(self@.nodes =~= before.applied(c).nodes);
    }

    /// Takes in a node's caption, and its address where one is given.
    pub fn caption(&mut self, id: NodeId, subtitle: String, address: Option<String>)
        requires
            old(self)@.shows(id),
        ensures
            final(self)@ == old(self)@.captioned(id, subtitle@, opt_text(address)),
    {
        let ghost before = self@;
        let node = self.node_mut(id);
        node.subtitle = subtitle;
        if address.is_some() {
            node.address = address;
        }
        assert(self@.nodes =~= before.captioned(id, subtitle@, opt_text(address)).nodes);
    }

    /// The checks of a layer, in the order in which they came in.
    pub fn checks_of(&self, layer: Layer) -> (r: Vec<&CheckResult>)
        ensures
            r@.map_values(|c: &CheckResult| c@) == self@.checks.filter(
                |c: CheckView| c.layer == layer,
            ),
    {
        let ghost keep = |c: CheckView| c.layer == layer;
        let mut out: Vec<&CheckResult> = Vec::new();
        let mut i: usize = 0;
        let ghost all = self@.checks;
        proof {
            reveal(Seq::filter);
            assert(all.take(0) =~= Seq::<CheckView>::empty());
            assert(out@.map_values(|c: &CheckResult| c@) =~= Seq::<CheckView>::empty());
        }
        while i < self.checks.len()
            invariant
                i <= self.checks@.len(),
                all == check_views(self.checks@),
                keep == (|c: CheckView| c.layer == layer),
                out@.map_values(|c: &CheckResult| c@) == all.take(i as int).filter(keep),
            decreases self.checks@.len() - i,
        {
            proof {
                reveal(Seq::filter);
                assert(all.take(i + 1).drop_last() =~= all.take(i as int));
                assert(all.take(i + 1).last() == self.checks@[i as int]@);
            }
            if self.checks[i].layer == layer {
                let ghost was = out@;
                out.push(&self.checks[i]);
                assert(out@.map_values(|c: &CheckResult| c@) =~= was.map_values(
                    |c: &CheckResult| c@,
                ).push(self.checks@[i as int]@));
            }
            i += 1;
        }
        assert(all.take(i as int) =~= all);
        out
    }
}

impl Default for Report {
    fn default() -> (r: Self)
        ensures
            r@ == blank_report(),
    {
        Report::new()
    }
}

// ---------------------------------------------------------------------------
// Laws
// ---------------------------------------------------------------------------

impl ReportView {
    /// Whether no two checks share an identifier.
    pub open spec fn no_repeats(self) -> bool {
        forall|i: int, j: int|
            0 <= i < j < self.checks.len() ==> (#[trigger] self.checks[i]).id != (
            #[trigger] self.checks[j]).id
    }

    /// Whether every node shows the worst status among its checks.
    pub open spec fn shows_the_worst(self) -> bool {
        forall|i: int|
            0 <= i < self.nodes.len() ==> (#[trigger] self.nodes[i]).status == rolled_up(
                self.checks,
                self.nodes[i].id,
            )
    }
}

/// The chart stays the chain of its nodes, whatever comes in.
pub proof fn the_chart_is_kept(
    r: ReportView,
    c: CheckView,
    id: NodeId,
    subtitle: Seq<char>,
    address: Option<Seq<char>>,
)
    requires
        r.well_formed(),
    ensures
        blank_report().well_formed(),
        r.applied(c).well_formed(),
        r.captioned(id, subtitle, address).well_formed(),
{
    lemma_well_formed_shows(r, c.node);
    lemma_well_formed_shows(r, id);
}

/// A check has one line: a result replaces the earlier one of the same check,
/// the lines of other checks stay, and a result that comes in twice changes
/// nothing.
pub proof fn one_line_for_each_check(r: ReportView, c: CheckView)
    requires
        r.well_formed(),
        r.no_repeats(),
    ensures
        r.applied(c).no_repeats(),
        r.applied(c).checks.contains(c),
        forall|i: int|
            0 <= i < r.checks.len() && (#[trigger] r.checks[i]).id != c.id ==> r.applied(
                c,
            ).checks[i] == r.checks[i],
        r.applied(c).checks.len() <= r.checks.len() + 1,
        r.applied(c).applied(c) == r.applied(c),
{
    let i = check_at(r.checks, c.id);
    let a = r.applied(c);
    lemma_check_at_bounds(r.checks, c.id);
    lemma_well_formed_shows(r, c.node);
    assert(a.checks[i] == c);
    assert forall|j: int, k: int| 0 <= j < k < a.checks.len() implies (#[trigger] a.checks[j]).id
        != (#[trigger] a.checks[k]).id by {
        if j != i && j < r.checks.len() {
            assert(a.checks[j] == r.checks[j]);
        }
        if k != i && k < r.checks.len() {
            assert(a.checks[k] == r.checks[k]);
        }
    }
    assert forall|j: int| 0 <= j < i implies (#[trigger] a.checks[j]).id != c.id by {
        assert(a.checks[j] == r.checks[j]);
    }
    lemma_check_at(a.checks, c.id, i);
    assert(a.checks_with(c) =~= a.checks);
    let n = node_at(r.nodes, c.node);
    lemma_node_at_bounds(r.nodes, c.node);
    assert forall|j: int| 0 <= j < n implies (#[trigger] a.nodes[j]).id != c.node by {
        assert(a.nodes[j] == r.nodes[j]);
    }
    lemma_node_at(a.nodes, c.node, n);
    assert(a.applied(c).nodes =~= a.nodes);
}

/// A node shows the worst status among its checks, as long as a check does not
/// move from one node to another.
pub proof fn nodes_show_their_worst_check(r: ReportView, c: CheckView)
    requires
        r.well_formed(),
        r.shows_the_worst(),
        forall|i: int|
            0 <= i < r.checks.len() && (#[trigger] r.checks[i]).id == c.id ==> r.checks[i].node
                == c.node,
    ensures
        blank_report().shows_the_worst(),
        r.applied(c).shows_the_worst(),
{
    let a = r.applied(c);
    let i = check_at(r.checks, c.id);
    lemma_check_at_bounds(r.checks, c.id);
    lemma_well_formed_shows(r, c.node);
    let n = node_at(r.nodes, c.node);
    assert forall|j: int| 0 <= j < a.nodes.len() implies (#[trigger] a.nodes[j]).status
        == rolled_up(a.checks, a.nodes[j].id) by {
        if j != n {
            assert(a.nodes[j] == r.nodes[j]);
            let other = r.nodes[j].id;
            assert(other != c.node) by {
                assert(r.nodes[j].id == chain()[j]);
                assert(r.nodes[n].id == chain()[n]);
            }
            if i < r.checks.len() {
                lemma_rolled_up_elsewhere(r.checks, i, c, other);
            } else {
                assert(a.checks.drop_last() =~= r.checks);
            }
        }
    }
}

/// What happens to the checks of one node does not touch another.
proof fn lemma_rolled_up_elsewhere(checks: Seq<CheckView>, i: int, c: CheckView, other: NodeId)
    requires
        0 <= i < checks.len(),
        checks[i].node != other,
        c.node != other,
    ensures
        rolled_up(checks.update(i, c), other) == rolled_up(checks, other),
    decreases checks.len(),
{
    let changed = checks.update(i, c);
    if i == checks.len() - 1 {
        assert(changed.drop_last() =~= checks.drop_last());
    } else {
        assert(changed.drop_last() =~= checks.drop_last().update(i, c));
        lemma_rolled_up_elsewhere(checks.drop_last(), i, c, other);
    }
}

/// What is worse: a failure outweighs a warning, a warning a success, a success
/// a check that runs, that one a skipped check, and anything a check that waits.
pub proof fn the_order_of_troubles(s: Status)
    ensures
        Status::Fail.worse_of(s) == Status::Fail,
        s != Status::Fail ==> Status::Warn.worse_of(s) == Status::Warn,
        s != Status::Fail && s != Status::Warn ==> Status::Good.worse_of(s) == Status::Good,
        s == Status::Pending || s == Status::Skipped || s == Status::Running
            ==> Status::Running.worse_of(s) == Status::Running,
        s == Status::Pending || s == Status::Skipped ==> Status::Skipped.worse_of(s)
            == Status::Skipped,
        Status::Pending.worse_of(s) == s,
{
}

/// A node fails exactly where one of its checks fails. Where none does, it has a
/// warning exactly where one of them has; where none has, it is good exactly
/// where one of them is.
pub proof fn a_node_is_as_bad_as_its_checks(checks: Seq<CheckView>, node: NodeId)
    ensures
        ({
            let any = |s: Status| exists|i: int|
                0 <= i < checks.len() && (#[trigger] checks[i]).node == node && checks[i].status
                    == s;
            let worst = rolled_up(checks, node);
            &&& worst == Status::Fail <==> any(Status::Fail)
            &&& worst == Status::Warn <==> !any(Status::Fail) && any(Status::Warn)
            &&& worst == Status::Good <==> !any(Status::Fail) && !any(Status::Warn) && any(
                Status::Good,
            )
            &&& worst != Status::Pending ==> any(worst)
        }),
    decreases checks.len(),
{
    if checks.len() > 0 {
        let n = checks.len() - 1;
        let rest = checks.drop_last();
        a_node_is_as_bad_as_its_checks(rest, node);
        let any = |s: Status| exists|i: int|
            0 <= i < checks.len() && (#[trigger] checks[i]).node == node && checks[i].status == s;
        let had = |s: Status| exists|i: int|
            0 <= i < rest.len() && (#[trigger] rest[i]).node == node && rest[i].status == s;
        assert forall|s: Status| #[trigger] any(s) == (had(s) || (checks[n].node == node
            && checks[n].status == s)) by {
            if any(s) {
                let i = choose|i: int|
                    0 <= i < checks.len() && (#[trigger] checks[i]).node == node
                        && checks[i].status == s;
                if i < n {
                    assert(rest[i] == checks[i]);
                }
            }
            if had(s) {
                let i = choose|i: int|
                    0 <= i < rest.len() && (#[trigger] rest[i]).node == node && rest[i].status
                        == s;
                assert(checks[i] == rest[i]);
            }
        }
        assert(any(Status::Fail) == (had(Status::Fail) || (checks[n].node == node
            && checks[n].status == Status::Fail)));
        assert(any(Status::Warn) == (had(Status::Warn) || (checks[n].node == node
            && checks[n].status == Status::Warn)));
        assert(any(Status::Good) == (had(Status::Good) || (checks[n].node == node
            && checks[n].status == Status::Good)));
        let w = rolled_up(checks, node);
        assert(any(w) == (had(w) || (checks[n].node == node && checks[n].status == w)));
    }
}

/// A check changes its own line and its own node, and a caption its own node;
/// everything else of the report stays. A caption without an address keeps the
/// one that was known.
pub proof fn changes_stay_in_their_place(
    r: ReportView,
    c: CheckView,
    id: NodeId,
    subtitle: Seq<char>,
    address: Option<Seq<char>>,
)
    requires
        r.well_formed(),
    ensures
        ({
            let a = r.applied(c);
            let b = r.captioned(id, subtitle, address);
            &&& a.diagnosis == r.diagnosis && b.diagnosis == r.diagnosis
            &&& b.checks == r.checks
            &&& a.nodes.len() == r.nodes.len() && b.nodes.len() == r.nodes.len()
            &&& forall|i: int|
                0 <= i < r.nodes.len() ==> {
                    &&& (#[trigger] a.nodes[i]).id == r.nodes[i].id
                    &&& a.nodes[i].subtitle == r.nodes[i].subtitle
                    &&& a.nodes[i].address == r.nodes[i].address
                    &&& r.nodes[i].id != c.node ==> a.nodes[i] == r.nodes[i]
                    &&& r.nodes[i].id == c.node ==> a.nodes[i].status == rolled_up(
                        a.checks,
                        c.node,
                    )
                }
            &&& forall|i: int|
                0 <= i < r.nodes.len() ==> {
                    &&& (#[trigger] b.nodes[i]).id == r.nodes[i].id
                    &&& b.nodes[i].status == r.nodes[i].status
                    &&& r.nodes[i].id != id ==> b.nodes[i] == r.nodes[i]
                    &&& r.nodes[i].id == id ==> b.nodes[i].subtitle == subtitle
                        && b.nodes[i].address == (if address is Some {
                        address
                    } else {
                        r.nodes[i].address
                    })
                }
        }),
{
    lemma_well_formed_shows(r, c.node);
    lemma_well_formed_shows(r, id);
    let x = node_at(r.nodes, c.node);
    let y = node_at(r.nodes, id);
    assert forall|i: int| 0 <= i < r.nodes.len() && i != x implies (#[trigger] r.nodes[i]).id
        != c.node by {
        assert(r.nodes[i].id == chain()[i] && r.nodes[x].id == chain()[x]);
    }
    assert forall|i: int| 0 <= i < r.nodes.len() && i != y implies (#[trigger] r.nodes[i]).id
        != id by {
        assert(r.nodes[i].id == chain()[i] && r.nodes[y].id == chain()[y]);
    }
}

/// Marks and words tell statuses apart, each by its own.
pub proof fn statuses_have_their_words(s: Status)
    ensures
        s is Pending ==> s.label_text() == "ожидает"@ && s.glyph_text() == "·"@,
        s is Running ==> s.label_text() == "идёт проверка"@ && s.glyph_text() == "…"@,
        s is Good ==> s.label_text() == "в порядке"@ && s.glyph_text() == "OK"@,
        s is Warn ==> s.label_text() == "есть замечания"@ && s.glyph_text() == "!"@,
        s is Fail ==> s.label_text() == "не работает"@ && s.glyph_text() == "X"@,
        s is Skipped ==> s.label_text() == "пропущено"@ && s.glyph_text() == "–"@,
{
}

/// The layers go up from the cable to the programs, each once.
pub proof fn layers_go_up_from_the_cable(layer: Layer)
    ensures
        all_layers().len() == 7,
        all_layers().contains(layer),
        all_layers()[0] is L1Physical,
        all_layers()[1] is L2Link,
        all_layers()[2] is L3Network,
        all_layers()[3] is L4Transport,
        all_layers()[4] is L5Session,
        all_layers()[5] is L6Presentation,
        all_layers()[6] is L7Application,
{
    let n: int = match layer {
        Layer::L1Physical => 0,
        Layer::L2Link => 1,
        Layer::L3Network => 2,
        Layer::L4Transport => 3,
        Layer::L5Session => 4,
        Layer::L6Presentation => 5,
        Layer::L7Application => 6,
    };
    assert(all_layers()[n] == layer);
}

} // verus!
