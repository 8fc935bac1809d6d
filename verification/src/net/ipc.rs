//! The loopback link to the game client.
//!
//! The game is a single local process, so exactly one connection is live at a time. A new
//! connection replaces the old one, which is what happens when the player restarts the game
//! while the sidecar keeps running.

use crate::text;
use vstd::prelude::*;

verus! {

/// How long to wait for a game to come back before following it out, in seconds.
pub const EXIT_GRACE_S: u64 = 20;

/// How long a freshly started sidecar waits for a game before giving up, in seconds.
pub const STARTUP_GRACE_S: u64 = 90;

/// What is known of the game that is attached, and what a game that attaches later must be told.
pub struct GameLink {
    status: Option<Vec<u8>>,
    profile: Option<Vec<u8>>,
    /// The two-world save summaries for the select menu. Unlike a single character's profile they
    /// carry no position, so they are safe to replay.
    mode_profiles: Option<Vec<u8>>,
    /// Bumped every time a game attaches.
    generation: u64,
    attached: bool,
}

/// A `GameLink` as a value of the specification.
#[verifier::ext_equal]
pub struct LinkView {
    pub status: Option<Seq<u8>>,
    pub profile: Option<Seq<u8>>,
    pub mode_profiles: Option<Seq<u8>>,
    pub generation: u64,
    pub attached: bool,
}

/// The bytes of an optional frame.
pub open spec fn frame_view(f: Option<Vec<u8>>) -> Option<Seq<u8>> {
    match f {
        Some(v) => Some(v@),
        None => None,
    }
}

impl View for GameLink {
    type V = LinkView;

    closed spec fn view(&self) -> LinkView {
        LinkView {
            status: frame_view(self.status),
            profile: frame_view(self.profile),
            mode_profiles: frame_view(self.mode_profiles),
            generation: self.generation,
            attached: self.attached,
        }
    }
}

/// The frames of a list.
pub open spec fn frames_view(v: Seq<Vec<u8>>) -> Seq<Seq<u8>> {
    Seq::new(v.len(), |i: int| v[i]@)
}

/// What a game is told on attaching: the sign-in state and the select-menu summaries. The profile
/// is deliberately not replayed: it carries a position that may be hours old, and a game that
/// attaches late asks for the current one.
pub open spec fn replayed(link: LinkView) -> Seq<Seq<u8>> {
    let first = match link.status {
        Some(f) => seq![f],
        None => Seq::empty(),
    };
    match link.mode_profiles {
        Some(f) => first.push(f),
        None => first,
    }
}

fn copy_frame(f: &Vec<u8>) -> (r: Vec<u8>)
    ensures
        r@ == f@,
{
    vstd::slice::slice_to_vec(f)
}

impl GameLink {
    /// A link to which no game has attached yet.
    pub fn new() -> (r: Self)
        ensures
            r@ == (LinkView {
                status: None,
                profile: None,
                mode_profiles: None,
                generation: 0,
                attached: false,
            }),
    {
        GameLink {
            status: None,
            profile: None,
            mode_profiles: None,
            generation: 0,
            attached: false,
        }
    }

    /// Remembers the sign-in state for whichever game attaches next.
    pub fn send_status(&mut self, frame: &Vec<u8>)
        ensures
            final(self)@ == (LinkView { status: Some(frame@), ..old(self)@ }),
    {
        self.status = Some(copy_frame(frame));
    }

    /// Remembers the save summary.
    pub fn send_profile(&mut self, frame: &Vec<u8>)
        ensures
            final(self)@ == (LinkView { profile: Some(frame@), ..old(self)@ }),
    {
        self.profile = Some(copy_frame(frame));
    }

    /// Remembers the two-world select summaries for whichever game attaches next.
    pub fn send_mode_profiles(&mut self, frame: &Vec<u8>)
        ensures
            final(self)@ == (LinkView { mode_profiles: Some(frame@), ..old(self)@ }),
    {
        self.mode_profiles = Some(copy_frame(frame));
    }

    /// A game attaches: what it is to be told.
    pub fn attach(&mut self) -> (r: Vec<Vec<u8>>)
        ensures
            final(self)@ == (LinkView {
                generation: if old(self)@.generation == u64::MAX {
                    0
                } else {
                    (old(self)@.generation + 1) as u64
                },
                attached: true,
                ..old(self)@
            }),
            frames_view(r@) == replayed(old(self)@),
    {
        self.generation = self.generation.wrapping_add(1);
        self.attached = true;
        let mut out: Vec<Vec<u8>> = Vec::new();
        match &self.status {
            Some(f) => {
                out.push(copy_frame(f));
            },
            None => {},
        }
        match &self.mode_profiles {
            Some(f) => {
                out.push(copy_frame(f));
            },
            None => {},
        }
        assert(frames_view(out@) =~= replayed(old(self)@));
        out
    }

    /// The game has gone. Returns the generation that `gone` is to be asked with after the grace
    /// period.
    pub fn detach(&mut self) -> (r: u64)
        ensures
            final(self)@ == (LinkView { attached: false, ..old(self)@ }),
            r == old(self)@.generation,
    {
        self.attached = false;
        self.generation
    }

    /// Whether the game is not coming back: still nobody is attached, and nobody has been since.
    pub fn gone(&self, generation: u64) -> (r: bool)
        ensures
            r == (!self@.attached && self@.generation == generation),
    {
        !self.attached && self.generation == generation
    }

    /// Whether no game ever attached.
    pub fn never_attached(&self) -> (r: bool)
        ensures
            r == (self@.generation == 0),
    {
        self.generation == 0
    }
}

/// Whether a game belongs to this sidecar. One started by hand carries no token and serves anyone.
pub fn is_ours(instance: &str, theirs: &str) -> (r: bool)
    ensures
        r == (instance@.len() == 0 || theirs@ == instance@),
{
    instance.is_empty() || text::is_text(theirs, instance)
}

/// A game that comes back within the grace period keeps its sidecar alive.
pub proof fn law_a_returning_game_keeps_the_sidecar(link: LinkView, generation: u64)
    requires
        link.generation == generation,
        generation < u64::MAX,
    ensures
        ({
            let again = LinkView {
                generation: (link.generation + 1) as u64,
                attached: true,
                ..link
            };
            let left = LinkView { attached: false, ..again };
            &&& !(!again.attached && again.generation == generation)
            &&& !(!left.attached && left.generation == generation)
        }),
{
}

} // verus!
