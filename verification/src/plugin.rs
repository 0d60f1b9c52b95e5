//! The plugin pipeline.
//!
//! Hooks see raw frames (packet id and payload, after decryption and
//! decompression) rather than typed packets: raw frames survive protocol
//! details that the proxy does not model. A plugin that needs typed access
//! parses the frames it cares about and forwards the rest.

use vstd::prelude::*;

use crate::views;
use crate::views::group_views;

verus! {

broadcast use group_views;

/// A raw protocol frame: varint packet id and body, stripped of length
/// prefix, compression and encryption.
#[derive(Debug, PartialEq)]
pub struct Frame {
    pub packet_id: u32,
    pub body: Vec<u8>,
}

/// What a [`Frame`] holds.
#[verifier::ext_equal]
pub struct FrameView {
    pub packet_id: u32,
    pub body: Seq<u8>,
}

impl View for Frame {
    type V = FrameView;

    open spec fn view(&self) -> FrameView {
        FrameView { packet_id: self.packet_id, body: self.body@ }
    }
}

impl Clone for Frame {
    fn clone(&self) -> (r: Frame)
        ensures
            r@ == self@,
    {
        Frame { packet_id: self.packet_id, body: self.body.clone() }
    }
}

/// What the pipeline should do with a frame after a plugin saw it.
pub enum Verdict {
    /// Pass it along unchanged.
    Forward,
    /// Swallow it.
    Drop,
    /// Substitute different frames.
    Replace(Vec<Frame>),
}

/// What a [`Verdict`] holds.
pub enum VerdictView {
    Forward,
    Drop,
    Replace(Seq<FrameView>),
}

impl View for Verdict {
    type V = VerdictView;

    open spec fn view(&self) -> VerdictView {
        match *self {
            Verdict::Forward => VerdictView::Forward,
            Verdict::Drop => VerdictView::Drop,
            Verdict::Replace(frames) => VerdictView::Replace(views::views(frames@)),
        }
    }
}

/// A hook on the traffic of a session. Each hook forwards unless it is
/// overridden.
pub trait ProxyPlugin: Send + Sync {
    /// The plugin's hook for this direction may give this verdict on a frame.
    /// A plugin may keep a state of its own, so there may be several. A hook
    /// may forward in any case. A plugin that says no more of itself may give
    /// any verdict.
    open spec fn answers(&self, clientbound: bool, frame: FrameView, verdict: VerdictView) -> bool {
        true
    }

    fn name(&self) -> &'static str;

    /// A new session (upstream connection) has been established.
    fn on_session_start(&self) {
    }

    /// Frame travelling from the target server to the clients.
    fn on_clientbound(&self, _frame: &Frame) -> (r: Verdict)
        ensures
            r@ == VerdictView::Forward || self.answers(true, _frame@, r@),
        default_ensures
            r@ == VerdictView::Forward,
    {
        Verdict::Forward
    }

    /// Frame travelling from the controlling client to the target server.
    fn on_serverbound(&self, _frame: &Frame) -> (r: Verdict)
        ensures
            r@ == VerdictView::Forward || self.answers(false, _frame@, r@),
        default_ensures
            r@ == VerdictView::Forward,
    {
        Verdict::Forward
    }
}

/// What comes out when `frame` meets these verdicts in turn: the first one
/// that does not forward decides, and a frame that all forward passes.
pub open spec fn routed(frame: FrameView, verdicts: Seq<VerdictView>) -> Seq<FrameView>
    decreases verdicts.len(),
{
    if verdicts.len() == 0 {
        seq![frame]
    } else {
        match verdicts[0] {
            VerdictView::Forward => routed(frame, verdicts.skip(1)),
            VerdictView::Drop => Seq::empty(),
            VerdictView::Replace(frames) => frames,
        }
    }
}

/// Verdicts before the first one that does not forward do not matter.
pub proof fn first_decision_wins(frame: FrameView, verdicts: Seq<VerdictView>, n: int)
    requires
        0 <= n <= verdicts.len(),
        forall|i: int| 0 <= i < n ==> #[trigger] verdicts[i] == VerdictView::Forward,
    ensures
        routed(frame, verdicts) == routed(frame, verdicts.skip(n)),
    decreases n,
{
    if n > 0 {
        let rest = verdicts.skip(1);
        assert forall|i: int| 0 <= i < n - 1 implies #[trigger] rest[i] == VerdictView::Forward by {
            assert(rest[i] == verdicts[i + 1]);
        }
        first_decision_wins(frame, rest, n - 1);
        assert(rest.skip(n - 1) =~= verdicts.skip(n));
    } else {
        assert(verdicts.skip(0) =~= verdicts);
    }
}

/// The first verdict that does not forward decides, whatever comes after it: a
/// frame that is dropped is gone, and one that is replaced is what it is
/// replaced by. A frame that all forward passes as it is.
pub proof fn the_first_verdict_decides(frame: FrameView, verdicts: Seq<VerdictView>, n: int)
    requires
        0 <= n <= verdicts.len(),
        forall|i: int| 0 <= i < n ==> #[trigger] verdicts[i] == VerdictView::Forward,
    ensures
        n == verdicts.len() ==> routed(frame, verdicts) == seq![frame],
        n < verdicts.len() && verdicts[n] == VerdictView::Drop ==> routed(frame, verdicts).len()
            == 0,
        n < verdicts.len() ==> (verdicts[n] matches VerdictView::Replace(frames) ==> routed(
            frame,
            verdicts,
        ) == frames),
{
    first_decision_wins(frame, verdicts, n);
    if n < verdicts.len() {
        assert(verdicts.skip(n)[0] == verdicts[n]);
    }
}

/// Applies a list of verdicts to a frame.
pub fn decide(frame: Frame, verdicts: Vec<Verdict>) -> (r: Vec<Frame>)
    ensures
        views::views(r@) == routed(frame@, views::views(verdicts@)),
{
    let ghost all = views::views(verdicts@);
    let mut left: Vec<Verdict> = verdicts;
    let ghost mut n: int = 0;
    while left.len() > 0
        invariant
            all == views::views(verdicts@),
            0 <= n <= all.len(),
            views::views(left@) == all.skip(n),
            left.len() == all.len() - n,
            forall|i: int| 0 <= i < n ==> #[trigger] all[i] == VerdictView::Forward,
        decreases left.len(),
    {
        let ghost before = left@;
        let verdict: Verdict = left.remove(0);
        proof {
            assert(views::views(before)[0] == all.skip(n)[0]);
            assert forall|i: int| 0 <= i < left.len() implies #[trigger] left@[i]@ == all.skip(
                n + 1,
            )[i] by {
                assert(left@[i] == before[i + 1]);
                assert(views::views(before)[i + 1] == all.skip(n)[i + 1]);
            }
            assert(views::views(left@) =~= all.skip(n + 1));
        }
        match verdict {
            Verdict::Forward => {
                proof {
                    n = n + 1;
                }
            },
            Verdict::Drop => {
                proof {
                    first_decision_wins(frame@, all, n);
                }
                return Vec::new();
            },
            Verdict::Replace(frames) => {
                proof {
                    first_decision_wins(frame@, all, n);
                }
                return frames;
            },
        }
    }
    proof {
        first_decision_wins(frame@, all, n);
    }
    let mut r: Vec<Frame> = Vec::new();
    r.push(frame);
    proof {
        assert(views::views(r@) =~= seq![frame@]);
    }
    r
}

/// Runs frames through every plugin in order; the first one that drops or
/// replaces a frame decides.
pub struct Pipeline {
    pub plugins: Vec<Box<dyn ProxyPlugin>>,
}

/// Asks a plugin about a frame from the target server.
pub fn ask_clientbound(plugin: &Box<dyn ProxyPlugin>, frame: &Frame) -> (r: Verdict)
    ensures
        r@ == VerdictView::Forward || plugin.answers(true, frame@, r@),
{
    plugin.on_clientbound(frame)
}

/// Asks a plugin about a frame from the controlling client.
pub fn ask_serverbound(plugin: &Box<dyn ProxyPlugin>, frame: &Frame) -> (r: Verdict)
    ensures
        r@ == VerdictView::Forward || plugin.answers(false, frame@, r@),
{
    plugin.on_serverbound(frame)
}

/// These are the verdicts of plugins that were asked in order until one did
/// not forward: `n` verdicts, all of which forward but perhaps the last, or
/// fewer, of which the last does not.
pub open spec fn until_decided(n: nat, verdicts: Seq<Verdict>) -> bool {
    &&& verdicts.len() <= n
    &&& forall|i: int|
        0 <= i < verdicts.len() - 1 ==> (#[trigger] verdicts[i])@ == VerdictView::Forward
    &&& verdicts.len() < n ==> verdicts.len() > 0 && verdicts.last()@ != VerdictView::Forward
}

/// `verdicts` are what the clientbound hooks said of `frame`: the first
/// plugins, in order, up to the first that does not forward, were each asked
/// about the frame itself.
pub open spec fn said_clientbound(
    plugins: Seq<Box<dyn ProxyPlugin>>,
    frame: Frame,
    verdicts: Seq<Verdict>,
) -> bool {
    &&& until_decided(plugins.len(), verdicts)
    &&& forall|i: int|
        0 <= i < verdicts.len() ==> call_ensures(
            ask_clientbound,
            (&plugins[i], &frame),
            #[trigger] verdicts[i],
        ) && (verdicts[i]@ == VerdictView::Forward || plugins[i].answers(
            true,
            frame@,
            verdicts[i]@,
        ))
}

/// `verdicts` are what the serverbound hooks said of `frame`, likewise.
pub open spec fn said_serverbound(
    plugins: Seq<Box<dyn ProxyPlugin>>,
    frame: Frame,
    verdicts: Seq<Verdict>,
) -> bool {
    &&& until_decided(plugins.len(), verdicts)
    &&& forall|i: int|
        0 <= i < verdicts.len() ==> call_ensures(
            ask_serverbound,
            (&plugins[i], &frame),
            #[trigger] verdicts[i],
        ) && (verdicts[i]@ == VerdictView::Forward || plugins[i].answers(
            false,
            frame@,
            verdicts[i]@,
        ))
}

/// `out` is what the plugins make of a frame from the target server.
pub open spec fn passes_clientbound(
    plugins: Seq<Box<dyn ProxyPlugin>>,
    frame: Frame,
    out: Seq<FrameView>,
) -> bool {
    exists|verdicts: Seq<Verdict>| #[trigger]
        said_clientbound(plugins, frame, verdicts) && out == routed(frame@, views::views(verdicts))
}

/// `out` is what the plugins make of a frame from the controlling client.
pub open spec fn passes_serverbound(
    plugins: Seq<Box<dyn ProxyPlugin>>,
    frame: Frame,
    out: Seq<FrameView>,
) -> bool {
    exists|verdicts: Seq<Verdict>| #[trigger]
        said_serverbound(plugins, frame, verdicts) && out == routed(frame@, views::views(verdicts))
}

/// With no plugins every frame passes unchanged, either way.
pub proof fn empty_pipeline_forwards(
    plugins: Seq<Box<dyn ProxyPlugin>>,
    frame: Frame,
    out: Seq<FrameView>,
)
    requires
        plugins.len() == 0,
        passes_clientbound(plugins, frame, out) || passes_serverbound(plugins, frame, out),
    ensures
        out == seq![frame@],
{
}

/// Of verdicts up to the first that does not forward the last one counts.
proof fn last_verdict_counts(n: nat, frame: FrameView, verdicts: Seq<Verdict>)
    requires
        until_decided(n, verdicts),
    ensures
        routed(frame, views::views(verdicts)) == (if verdicts.len() == 0 {
            seq![frame]
        } else {
            match verdicts.last()@ {
                VerdictView::Forward => seq![frame],
                VerdictView::Drop => Seq::empty(),
                VerdictView::Replace(frames) => frames,
            }
        }),
{
    reveal_with_fuel(routed, 2);
    let all = views::views(verdicts);
    let n = all.len() as int;
    if n > 0 {
        assert forall|i: int| 0 <= i < n - 1 implies #[trigger] all[i] == VerdictView::Forward by {
            assert(all[i] == verdicts[i]@);
        }
        first_decision_wins(frame, all, n - 1);
        let last = all.skip(n - 1);
        assert(last.len() == 1 && last[0] == verdicts.last()@);
        assert(last.skip(1) =~= Seq::empty());
    }
}

/// Either every hook forwards, and the frame itself comes out; or some plugin
/// drops or replaces it, by an answer of its own hook in that direction, and
/// what comes out is just that.
pub proof fn a_plugin_decides_for_itself(
    plugins: Seq<Box<dyn ProxyPlugin>>,
    clientbound: bool,
    frame: Frame,
    out: Seq<FrameView>,
)
    requires
        if clientbound {
            passes_clientbound(plugins, frame, out)
        } else {
            passes_serverbound(plugins, frame, out)
        },
    ensures
        out == seq![frame@] || exists|k: int|
            0 <= k < plugins.len() && (#[trigger] plugins[k]).answers(
                clientbound,
                frame@,
                VerdictView::Replace(out),
            ) || 0 <= k < plugins.len() && plugins[k].answers(
                clientbound,
                frame@,
                VerdictView::Drop,
            ) && out.len() == 0,
{
    let verdicts = if clientbound {
        choose|verdicts: Seq<Verdict>| #[trigger]
            said_clientbound(plugins, frame, verdicts) && out == routed(
                frame@,
                views::views(verdicts),
            )
    } else {
        choose|verdicts: Seq<Verdict>| #[trigger]
            said_serverbound(plugins, frame, verdicts) && out == routed(
                frame@,
                views::views(verdicts),
            )
    };
    last_verdict_counts(plugins.len(), frame@, verdicts);
    if verdicts.len() > 0 {
        let k = verdicts.len() - 1;
        assert(verdicts[k]@ == VerdictView::Forward || plugins[k].answers(
            clientbound,
            frame@,
            verdicts[k]@,
        ));
    }
}

/// Asks plugins about a frame, in order, until one does not forward it, and
/// gives what comes out.
pub fn route_by<F: Fn(&Box<dyn ProxyPlugin>, &Frame) -> Verdict>(
    plugins: &Vec<Box<dyn ProxyPlugin>>,
    frame: Frame,
    hook: F,
) -> (r: Vec<Frame>)
    requires
        forall|i: int|
            0 <= i < plugins@.len() ==> call_requires(hook, (&#[trigger] plugins@[i], &frame)),
    ensures
        exists|verdicts: Seq<Verdict>| #[trigger]
            until_decided(plugins@.len(), verdicts) && (forall|i: int|
                0 <= i < verdicts.len() ==> call_ensures(
                    hook,
                    (&plugins@[i], &frame),
                    #[trigger] verdicts[i],
                )) && views::views(r@) == routed(frame@, views::views(verdicts)),
{
    let mut verdicts: Vec<Verdict> = Vec::new();
    let mut open: bool = true;
    let mut i: usize = 0;
    while open && i < plugins.len()
        invariant
            i <= plugins.len(),
            verdicts.len() == i,
            forall|j: int|
                0 <= j < plugins@.len() ==> call_requires(hook, (&#[trigger] plugins@[j], &frame)),
            forall|j: int|
                0 <= j < i ==> call_ensures(
                    hook,
                    (&plugins@[j], &frame),
                    #[trigger] verdicts@[j],
                ),
            forall|j: int|
                0 <= j < i - 1 ==> (#[trigger] verdicts@[j])@ == VerdictView::Forward,
            open && i > 0 ==> verdicts@[i - 1]@ == VerdictView::Forward,
            !open ==> i > 0 && verdicts@[i - 1]@ != VerdictView::Forward,
        decreases plugins.len() - i + (if open { 1int } else { 0int }),
    {
        let verdict: Verdict = hook(&plugins[i], &frame);
        open = match &verdict {
            Verdict::Forward => true,
            Verdict::Drop => false,
            Verdict::Replace(_) => false,
        };
        verdicts.push(verdict);
        i = i + 1;
    }
    proof {
        assert(until_decided(plugins@.len(), verdicts@));
    }
    decide(frame, verdicts)
}

impl Pipeline {
    /// Routes a frame from the target server.
    pub fn clientbound(&self, frame: Frame) -> (r: Vec<Frame>)
        ensures
            passes_clientbound(self.plugins@, frame, views::views(r@)),
    {
        let r: Vec<Frame> = route_by(&self.plugins, frame, ask_clientbound);
        proof {
            let verdicts = choose|verdicts: Seq<Verdict>| #[trigger]
                until_decided(self.plugins@.len(), verdicts) && (forall|i: int|
                    0 <= i < verdicts.len() ==> call_ensures(
                        ask_clientbound,
                        (&self.plugins@[i], &frame),
                        #[trigger] verdicts[i],
                    )) && views::views(r@) == routed(frame@, views::views(verdicts));
            assert(said_clientbound(self.plugins@, frame, verdicts));
        }
        r
    }

    /// Routes a frame from the controlling client.
    pub fn serverbound(&self, frame: Frame) -> (r: Vec<Frame>)
        ensures
            passes_serverbound(self.plugins@, frame, views::views(r@)),
    {
        let r: Vec<Frame> = route_by(&self.plugins, frame, ask_serverbound);
        proof {
            let verdicts = choose|verdicts: Seq<Verdict>| #[trigger]
                until_decided(self.plugins@.len(), verdicts) && (forall|i: int|
                    0 <= i < verdicts.len() ==> call_ensures(
                        ask_serverbound,
                        (&self.plugins@[i], &frame),
                        #[trigger] verdicts[i],
                    )) && views::views(r@) == routed(frame@, views::views(verdicts));
            assert(said_serverbound(self.plugins@, frame, verdicts));
        }
        r
    }
}

} // verus!
