//! Finding out whether the network is open, and where the portal is, without signing in.
use vstd::prelude::*;
use crate::auth::{
    base_of, looks_like_portal, looks_like_portal_page, page_call_of, page_step, page_step_lines,
    probe_call, probe_call_of, probe_state, url_base, Auth, AuthView, PageStep, PageView,
    ProbeState, ProbeView,
};
use crate::common::fits_decoder;
use crate::http::{reply_view, Call, CallView, Reply, ReplyView};
use crate::text::{
    dec, dec_text, first_where, join2, join3, join4, join5, lemma_first_where, note, opt_text,
    pair_view, pairs, texts,
};

verus! {

// ---------------------------------------------------------------------------
// The connectivity test
// ---------------------------------------------------------------------------

/// What a probe found, with the host and the path that it went to.
pub type Arrival = (String, String, ProbeState);

/// What a probe found, with the host and the path, as plain values.
pub type ArrivalView = (Seq<char>, Seq<char>, ProbeView);

/// The plain values of what probes found.
pub open spec fn arrivals_view(s: Seq<Arrival>) -> Seq<ArrivalView> {
    s.map_values(|a: Arrival| (a.0@, a.1@, a.2@))
}

/// Findings that decide.
pub open spec fn decides() -> spec_fn(ArrivalView) -> bool {
    |a: ArrivalView| a.2 is Online || a.2 is Captive
}

/// Whether a finding decides.
pub fn is_decisive(arrival: &Arrival) -> (r: bool)
    ensures
        r == decides()((arrival.0@, arrival.1@, arrival.2@)),
{
    match arrival.2 {
        ProbeState::Online | ProbeState::Captive(_) => true,
        _ => false,
    }
}

/// Appends the log line of a finding; one that shows nothing has none.
pub open spec fn with_arrival_line(lines: Seq<Seq<char>>, a: ArrivalView) -> Seq<Seq<char>> {
    match a.2 {
        ProbeView::Online => lines.push(
            "探测 "@ + a.0 + a.1 + " -> 200/204 无重定向, 已联网(已认证)"@,
        ),
        ProbeView::Captive(_) => lines.push(
            "探测 "@ + a.0 + a.1 + " -> 302 被劫持, 未认证"@,
        ),
        ProbeView::Unreachable(e) => lines.push(
            "探测 "@ + a.0 + a.1 + " -> 网络异常: "@ + e,
        ),
        ProbeView::Inconclusive => lines,
    }
}

/// The log lines of findings.
pub open spec fn arrival_lines(s: Seq<ArrivalView>) -> Seq<Seq<char>>
    decreases s.len(),
{
    if s.len() == 0 {
        Seq::empty()
    } else {
        with_arrival_line(arrival_lines(s.drop_last()), s.last())
    }
}

/// The last error among findings; empty where there is none.
pub open spec fn last_error(s: Seq<ArrivalView>) -> Seq<char>
    decreases s.len(),
{
    if s.len() == 0 {
        Seq::empty()
    } else {
        match s.last().2 {
            ProbeView::Unreachable(e) => e,
            _ => last_error(s.drop_last()),
        }
    }
}

/// What the findings come to, in the order in which they came in: the first that decides
/// does. Open or not, where either is known; the address that was reached or that the
/// portal leads to, or the last error.
pub open spec fn connectivity(s: Seq<ArrivalView>) -> (Option<bool>, Seq<char>) {
    match first_where(s, decides(), 0) {
        Some(i) => match s[i].2 {
            ProbeView::Captive(loc) => (Some(false), loc),
            _ => (Some(true), s[i].0 + s[i].1),
        },
        None => (None, last_error(s)),
    }
}

/// The log lines of the connectivity test: those of the findings up to the first that
/// decides, or of all and a closing line.
pub open spec fn connectivity_lines(s: Seq<ArrivalView>) -> Seq<Seq<char>> {
    match first_where(s, decides(), 0) {
        Some(i) => arrival_lines(s.take(i + 1)),
        None => arrival_lines(s).push(
            if last_error(s).len() > 0 {
                "三个探测地址均网络异常: 网卡可能未连接"@
            } else {
                "三个探测地址均无结论"@
            },
        ),
    }
}

/// The log line that opens the connectivity test.
pub fn connectivity_opening(targets: usize) -> (r: String)
    ensures
        r@ == "联通测试开始(并发 "@ + dec(targets as nat) + " 个探测地址)..."@,
{
    join3("联通测试开始(并发 ", &dec_text(targets as u64), " 个探测地址)...")
}

impl Auth {
    /// What the probes come to, in the order in which they came in, and what to log. The
    /// first that decides does: `Some(true)` is an open network, `Some(false)` the portal,
    /// with the address that it leads to. `None` decides nothing, with the last error.
    pub fn connectivity_test(&self, arrivals: &[Arrival]) -> (r: (
        Option<bool>,
        String,
        Vec<String>,
    ))
        ensures
            (r.0, r.1@) == connectivity(arrivals_view(arrivals@)),
            texts(r.2@) == connectivity_lines(arrivals_view(arrivals@)),
    {
        let ghost views = arrivals_view(arrivals@);
        let mut lines: Vec<String> = Vec::new();
        let mut error = String::new();
        let mut i: usize = 0;
        assert(texts(lines@) == Seq::<Seq<char>>::empty());
        assert(views.take(0) == Seq::<ArrivalView>::empty());
        while i < arrivals.len()
            invariant
                i <= arrivals@.len(),
                views == arrivals_view(arrivals@),
                first_where(views, decides(), 0) == first_where(views, decides(), i as int),
                texts(lines@) == arrival_lines(views.take(i as int)),
                error@ == last_error(views.take(i as int)),
            decreases arrivals@.len() - i,
        {
            let (host, path, state) = &arrivals[i];
            proof {
                assert(views[i as int] == (host@, path@, state@));
                assert(views.take(i + 1).drop_last() == views.take(i as int));
                assert(views.take(i + 1).last() == views[i as int]);
            }
            match state {
                ProbeState::Online => {
                    note(
                        &mut lines,
                        join4("探测 ", host, path, " -> 200/204 无重定向, 已联网(已认证)"),
                    );
                    return (Some(true), join2(host, path), lines);
                },
                ProbeState::Captive(loc) => {
                    note(&mut lines, join4("探测 ", host, path, " -> 302 被劫持, 未认证"));
                    return (Some(false), loc.as_str().to_owned(), lines);
                },
                ProbeState::Unreachable(e) => {
                    note(&mut lines, join5("探测 ", host, path, " -> 网络异常: ", e));
                    error = e.as_str().to_owned();
                },
                ProbeState::Inconclusive => {},
            }
            i += 1;
        }
        assert(views.take(views.len() as int) == views);
        if error.as_str().is_empty() {
            note(&mut lines, "三个探测地址均无结论".to_owned());
        } else {
            note(&mut lines, "三个探测地址均网络异常: 网卡可能未连接".to_owned());
        }
        (None, error, lines)
    }
}

// ---------------------------------------------------------------------------
// Where the portal is
// ---------------------------------------------------------------------------

/// How far the search for the portal has come.
#[derive(Debug)]
pub enum DetectStage {
    /// The target at `index` is being probed.
    Probing { index: usize },
    /// The page at `url` is being fetched, after `hop` redirects. `base` is the portal that
    /// a probe found; without one, the page is that of the address that was given.
    Visiting { base: Option<String>, url: String, hop: u8 },
}

/// What comes next in the search for the portal.
#[derive(Debug)]
pub enum DetectNext {
    /// A request to make.
    Send { stage: DetectStage, call: Call },
    /// The search is over: the base of the portal, if it was found.
    Done { portal: Option<String> },
}

/// A step of the search for the portal: what to log, and what comes next.
#[derive(Debug)]
pub struct DetectStep {
    pub lines: Vec<String>,
    pub next: DetectNext,
}

/// How far the search for the portal has come, as plain values.
#[verifier::ext_equal]
pub enum DetectStageView {
    Probing { index: int },
    Visiting { base: Option<Seq<char>>, url: Seq<char>, hop: int },
}

/// What comes next in the search for the portal, as plain values.
#[verifier::ext_equal]
pub enum DetectNextView {
    Send { stage: DetectStageView, call: CallView },
    Done { portal: Option<Seq<char>> },
}

/// A step of the search for the portal, as plain values.
#[verifier::ext_equal]
pub struct DetectStepView {
    pub lines: Seq<Seq<char>>,
    pub next: DetectNextView,
}

impl View for DetectStage {
    type V = DetectStageView;

    open spec fn view(&self) -> DetectStageView {
        match self {
            DetectStage::Probing { index } => DetectStageView::Probing { index: *index as int },
            DetectStage::Visiting { base, url, hop } => DetectStageView::Visiting {
                base: opt_text(*base),
                url: url@,
                hop: *hop as int,
            },
        }
    }
}

impl View for DetectNext {
    type V = DetectNextView;

    open spec fn view(&self) -> DetectNextView {
        match self {
            DetectNext::Send { stage, call } => DetectNextView::Send { stage: stage@, call: call@ },
            DetectNext::Done { portal } => DetectNextView::Done { portal: opt_text(*portal) },
        }
    }
}

impl View for DetectStep {
    type V = DetectStepView;

    open spec fn view(&self) -> DetectStepView {
        DetectStepView { lines: texts(self.lines@), next: self.next@ }
    }
}

/// The targets of probes, host and path.
pub type TargetsView = Seq<(Seq<char>, Seq<char>)>;

/// Probing the target at `index` comes next.
pub open spec fn detect_probe(targets: TargetsView, index: int) -> DetectNextView {
    DetectNextView::Send {
        stage: DetectStageView::Probing { index },
        call: probe_call_of(targets[index].0, targets[index].1),
    }
}

/// Fetching a page comes next.
pub open spec fn detect_visit(
    a: AuthView,
    base: Option<Seq<char>>,
    url: Seq<char>,
    hop: int,
) -> DetectNextView {
    DetectNextView::Send {
        stage: DetectStageView::Visiting { base, url, hop },
        call: page_call_of(a.ua, url),
    }
}

/// The search begins with the first target.
pub open spec fn detect_first(targets: TargetsView) -> DetectStepView {
    DetectStepView { lines: Seq::empty(), next: detect_probe(targets, 0) }
}

/// The search goes on from what a request came to. The targets are probed in turn until
/// one shows the portal, whose page is then fetched; where none does, the page of the
/// address that was given is fetched.
pub open spec fn detect_after_reply(
    a: AuthView,
    targets: TargetsView,
    stage: DetectStageView,
    reply: ReplyView,
) -> DetectStepView {
    match stage {
        DetectStageView::Probing { index } => {
            let (host, path) = targets[index];
            match probe_state(host, reply) {
                ProbeView::Captive(url) => DetectStepView {
                    lines: Seq::empty().push(
                        "探测 "@ + host + path + " -> 302 被劫持: "@ + url,
                    ),
                    next: detect_visit(a, Some(base_of(url)), url, 0),
                },
                _ => if index + 1 < targets.len() {
                    DetectStepView { lines: Seq::empty(), next: detect_probe(targets, index + 1) }
                } else {
                    match a.portal_url {
                        Some(p) => DetectStepView {
                            lines: Seq::empty().push(
                                "无劫持响应, 验证配置的门户地址: "@ + p,
                            ),
                            next: detect_visit(a, None, p, 0),
                        },
                        None => DetectStepView {
                            lines: Seq::empty(),
                            next: DetectNextView::Done { portal: None },
                        },
                    }
                },
            }
        },
        DetectStageView::Visiting { base, url, hop } => {
            let lines = page_step_lines(url, reply);
            match page_step(url, hop, reply) {
                PageView::Follow(next) => DetectStepView {
                    lines,
                    next: detect_visit(a, base, next, hop + 1),
                },
                PageView::Page { html, cookie } => match base {
                    Some(b) => DetectStepView {
                        lines: lines.push(
                            "  登录页"@ + (if looks_like_portal(html) {
                                "正常"@
                            } else {
                                "内容不像门户登录页"@
                            }) + " (最终地址 "@ + url + ")"@,
                        ),
                        next: DetectNextView::Done { portal: base },
                    },
                    None => DetectStepView {
                        lines: lines.push(
                            "  可达, "@ + (if looks_like_portal(html) {
                                "像门户登录页"@
                            } else {
                                "内容不像门户登录页"@
                            }) + " (最终地址 "@ + url + ")"@,
                        ),
                        next: DetectNextView::Done { portal: Some(base_of(url)) },
                    },
                },
                PageView::Failed(e) => match base {
                    Some(b) => DetectStepView {
                        lines: lines.push("  登录页抓取失败: "@ + e),
                        next: DetectNextView::Done { portal: base },
                    },
                    None => DetectStepView { lines, next: DetectNextView::Done { portal: None } },
                },
            }
        },
    }
}

/// Probing the target at `index` comes next.
fn probe_next(targets: &[(String, String)], index: usize) -> (r: DetectNext)
    requires
        index < targets@.len(),
    ensures
        r@ == detect_probe(pairs(targets@), index as int),
{
    let (host, path) = &targets[index];
    assert(pairs(targets@)[index as int] == pair_view(targets@[index as int]));
    DetectNext::Send { stage: DetectStage::Probing { index }, call: probe_call(host, path) }
}

impl Auth {
    /// Fetching a page comes next.
    fn visit_next(&self, base: Option<String>, url: String, hop: u8) -> (r: DetectNext)
        ensures
            r@ == detect_visit(self@, opt_text(base), url@, hop as int),
    {
        let call = self.page_call(&url);
        DetectNext::Send { stage: DetectStage::Visiting { base, url, hop }, call }
    }

    /// Begins the search for the portal. It signs in nowhere and changes nothing.
    pub fn detect_start(&self, targets: &[(String, String)]) -> (r: DetectStep)
        requires
            targets@.len() > 0,
        ensures
            r@ == detect_first(pairs(targets@)),
    {
        let lines: Vec<String> = Vec::new();
        assert(texts(lines@) == Seq::<Seq<char>>::empty());
        DetectStep { lines, next: probe_next(targets, 0) }
    }

    /// Goes on with the search for the portal, from what the request of `stage` came to.
    pub fn detect_portal(
        &self,
        targets: &[(String, String)],
        stage: DetectStage,
        reply: &Reply,
    ) -> (r: DetectStep)
        requires
            stage matches DetectStage::Probing { index } ==> index < targets@.len(),
            reply matches Ok(resp) ==> fits_decoder(resp.body@.len()),
        ensures
            r@ == detect_after_reply(self@, pairs(targets@), stage@, reply_view(*reply)),
    {
        let mut lines: Vec<String> = Vec::new();
        assert(texts(lines@) == Seq::<Seq<char>>::empty());
        match stage {
            DetectStage::Probing { index } => {
                let (host, path) = &targets[index];
                assert(pairs(targets@)[index as int] == pair_view(targets@[index as int]));
                if let ProbeState::Captive(url) = self.probe_one(host, reply) {
                    note(&mut lines, join5("探测 ", host, path, " -> 302 被劫持: ", &url));
                    let base = url_base(&url);
                    return DetectStep { lines, next: self.visit_next(Some(base), url, 0) };
                }
                if index < targets.len() - 1 {
                    return DetectStep { lines, next: probe_next(targets, index + 1) };
                }
                match &self.portal_url {
                    Some(p) => {
                        note(&mut lines, join2("无劫持响应, 验证配置的门户地址: ", p));
                        let next = self.visit_next(None, p.as_str().to_owned(), 0);
                        DetectStep { lines, next }
                    },
                    None => DetectStep { lines, next: DetectNext::Done { portal: None } },
                }
            },
            DetectStage::Visiting { base, url, hop } => {
                let (mut lines, page) = self.fetch_login_page(&url, hop, reply);
                match page {
                    PageStep::Follow(next) => DetectStep {
                        lines,
                        next: self.visit_next(base, next, hop + 1),
                    },
                    PageStep::Page { html, cookie: _ } => {
                        let good = looks_like_portal_page(&html);
                        if base.is_some() {
                            let look = if good {
                                "正常"
                            } else {
                                "内容不像门户登录页"
                            };
                            note(&mut lines, join5("  登录页", look, " (最终地址 ", &url, ")"));
                            DetectStep { lines, next: DetectNext::Done { portal: base } }
                        } else {
                            let look = if good {
                                "像门户登录页"
                            } else {
                                "内容不像门户登录页"
                            };
                            note(&mut lines, join5("  可达, ", look, " (最终地址 ", &url, ")"));
                            let portal = Some(url_base(&url));
                            DetectStep { lines, next: DetectNext::Done { portal } }
                        }
                    },
                    PageStep::Failed(e) => {
                        if base.is_some() {
                            note(&mut lines, join2("  登录页抓取失败: ", &e));
                        }
                        DetectStep { lines, next: DetectNext::Done { portal: base } }
                    },
                }
            },
        }
    }
}

// ---------------------------------------------------------------------------
// Laws
// ---------------------------------------------------------------------------

/// A verdict stands: once a finding decides, those that come in later change nothing.
pub proof fn law_verdict_stands(s: Seq<ArrivalView>, later: Seq<ArrivalView>)
    requires
        connectivity(s).0 is Some,
    ensures
        connectivity(s + later) == connectivity(s),
        connectivity_lines(s + later) == connectivity_lines(s),
{
    let all = s + later;
    lemma_first_where(s, decides(), 0);
    lemma_first_where(all, decides(), 0);
    let i = first_where(s, decides(), 0)->0;
    let k = first_where(all, decides(), 0)->0;
    assert(all[i] == s[i]);
    if k < i {
        assert(all[k] == s[k]);
    }
    assert(all.take(i + 1) == s.take(i + 1));
}

/// Where the search stands after a number of replies.
pub open spec fn detect_after(a: AuthView, targets: TargetsView, replies: Seq<ReplyView>) -> DetectStepView
    decreases replies.len(),
{
    if replies.len() == 0 {
        detect_first(targets)
    } else {
        let before = detect_after(a, targets, replies.drop_last());
        match before.next {
            DetectNextView::Send { stage, .. } => detect_after_reply(
                a,
                targets,
                stage,
                replies.last(),
            ),
            DetectNextView::Done { .. } => before,
        }
    }
}

/// How many requests are left at most.
pub open spec fn detect_rank(targets: TargetsView, next: DetectNextView) -> int {
    match next {
        DetectNextView::Send { stage, .. } => match stage {
            DetectStageView::Probing { index } => targets.len() - index + 3,
            DetectStageView::Visiting { hop, .. } => 3 - hop,
        },
        DetectNextView::Done { .. } => 0,
    }
}

/// A step of a search over targets: a target that there is, and two redirects at most.
pub open spec fn detect_in_range(targets: TargetsView, next: DetectNextView) -> bool {
    next matches DetectNextView::Send { stage, .. } ==> match stage {
        DetectStageView::Probing { index } => 0 <= index < targets.len(),
        DetectStageView::Visiting { hop, .. } => 0 <= hop <= 2,
    }
}

/// The search stays in range, and each reply brings its end nearer.
proof fn lemma_detect_rank(a: AuthView, targets: TargetsView, replies: Seq<ReplyView>)
    requires
        targets.len() > 0,
    ensures
        detect_in_range(targets, detect_after(a, targets, replies).next),
        detect_after(a, targets, replies).next is Send ==> detect_rank(
            targets,
            detect_after(a, targets, replies).next,
        ) <= targets.len() + 3 - replies.len(),
    decreases replies.len(),
{
    if replies.len() > 0 {
        lemma_detect_rank(a, targets, replies.drop_last());
    }
}

/// The search ends: after as many replies as there are targets, and three more, it is over.
pub proof fn law_search_ends(a: AuthView, targets: TargetsView, replies: Seq<ReplyView>)
    requires
        targets.len() > 0,
        replies.len() >= targets.len() + 3,
    ensures
        detect_after(a, targets, replies).next is Done,
{
    lemma_detect_rank(a, targets, replies);
}

/// The search signs in nowhere: all that it sends is requests to read, without a body.
pub proof fn law_search_only_reads(a: AuthView, targets: TargetsView, replies: Seq<ReplyView>)
    ensures
        detect_after(a, targets, replies).next matches DetectNextView::Send { call, .. }
            ==> call.method == "GET"@ && call.body is None,
    decreases replies.len(),
{
    if replies.len() > 0 {
        law_search_only_reads(a, targets, replies.drop_last());
    }
}

/// The portal that a probe shows is found, whatever becomes of its page.
pub proof fn law_portal_shown_is_found(
    a: AuthView,
    targets: TargetsView,
    base: Seq<char>,
    url: Seq<char>,
    hop: int,
    reply: ReplyView,
)
    ensures
        match detect_after_reply(
            a,
            targets,
            DetectStageView::Visiting { base: Some(base), url, hop },
            reply,
        ).next {
            DetectNextView::Send { stage, .. } => stage matches DetectStageView::Visiting {
                base: b,
                ..
            } && b == Some(base),
            DetectNextView::Done { portal } => portal == Some(base),
        },
{
}

} // verus!
