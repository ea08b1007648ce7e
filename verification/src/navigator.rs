//! The navigator: the state machine that sequences fetching, page
//! installation and per-step movement.
//!
//! States are `Empty` (no page, not fetching), `Fetching` (one request
//! outstanding) and `Active` (page loaded). A step in `Empty` issues the
//! bootstrap fetch; a step while fetching does nothing; a step in `Active`
//! resolves movement, and link contact decodes the link and issues its
//! fetch, stashing the fragment override for the next successful load.
//! Fetching itself is the host's business: `step` hands back the URL to
//! fetch, and the host calls `on_response` with what came back.

use vstd::prelude::*;
use crate::page::Page;
use crate::page::page_matches;
use crate::page::spawn_of;
use crate::page::copy_bytes;
use crate::sexpr::spec_parse_document;
use crate::sexpr::doc_len_limit;
use crate::motion::StepOutcome;
use crate::motion::resolve_step;
use crate::motion::move_step;
use crate::motion::sp_abs;
use crate::motion::sp_cell_hit;
use crate::motion::sp_collide;
use crate::motion::sp_move;
use crate::motion::sp_norm;
use crate::motion::sp_prospective;
use crate::motion::POS_LIMIT;
use crate::motion::TILE_MILLI;
use crate::link::decode;
use crate::link::spec_decode;

verus! {

/// The player's facing direction.
#[derive(Clone, Copy, PartialEq, Eq, Debug)]
pub enum Facing {
    North,
    South,
    West,
    East,
}

/// Which sprite column the facing selects, and whether it is mirrored,
/// given the walk-cycle phase.
pub open spec fn sp_tile_offset_and_flip(f: Facing, walk: u32) -> (u32, bool) {
    match f {
        Facing::North => (1u32, walk == 1),
        Facing::South => (0u32, walk == 1),
        Facing::West => ((2 + walk) as u32, false),
        Facing::East => ((2 + walk) as u32, true),
    }
}

impl Facing {
    /// The sprite column for this facing and walk-cycle phase, and whether
    /// it is drawn mirrored.
    pub fn tile_offset_and_flip(&self, walk: u32) -> (r: (u32, bool))
        requires
            walk <= 1,
        ensures
            r == sp_tile_offset_and_flip(*self, walk),
    {
        match self {
            Facing::North => (1, walk == 1),
            Facing::South => (0, walk == 1),
            Facing::West => (2 + walk, false),
            Facing::East => (2 + walk, true),
        }
    }
}

/// The facing after a step with net offset `(ox, oy)`: the vertical
/// component wins over the horizontal one, and a zero offset keeps the
/// old facing.
pub open spec fn sp_face(f: Facing, ox: int, oy: int) -> Facing {
    if oy > 0 {
        Facing::South
    } else if oy < 0 {
        Facing::North
    } else if ox > 0 {
        Facing::East
    } else if ox < 0 {
        Facing::West
    } else {
        f
    }
}

/// A position component clamped to the coordinate range the resolver
/// accepts.
pub open spec fn clamp_pos(v: int) -> int {
    if v > POS_LIMIT {
        POS_LIMIT as int
    } else if v < -(POS_LIMIT as int) {
        -(POS_LIMIT as int)
    } else {
        v
    }
}

/// The navigation state: the active page (if any), the outstanding-request
/// flag, the player's position in thousandths of a pixel, facing, the
/// pending spawn override carried across a page transition (in thousandths
/// of a tile), and the URL fetched from the `Empty` state.
pub struct Navigator {
    pub page: Option<Page>,
    pub requesting: bool,
    pub pos: (i64, i64),
    pub facing: Facing,
    pub pending_target: Option<(i64, i64)>,
    pub bootstrap_url: Vec<u8>,
}

impl Navigator {
    /// The navigator's invariant: while a request is outstanding no page is
    /// installed, and the position is within the resolver's range.
    pub open spec fn wf(self) -> bool {
        &&& (self.requesting ==> self.page is None)
        &&& sp_abs(self.pos.0 as int) <= POS_LIMIT
        &&& sp_abs(self.pos.1 as int) <= POS_LIMIT
    }

    /// A fresh navigator: `Empty`, at the origin, facing south.
    pub fn new(url: Vec<u8>) -> (r: Navigator)
        ensures
            r.wf(),
            r.page is None,
            !r.requesting,
            r.pos == (0i64, 0i64),
            r.facing == Facing::South,
            r.pending_target is None,
            r.bootstrap_url@ == url@,
    {
        Navigator {
            page: None,
            requesting: false,
            pos: (0, 0),
            facing: Facing::South,
            pending_target: None,
            bootstrap_url: url,
        }
    }

    /// The page the renderer should draw, if any.
    pub fn current_page(&self) -> (r: Option<&Page>)
        ensures
            match self.page {
                Some(_) => r matches Some(p) && self.page == Some(*p),
                None => r is None,
            },
    {
        self.page.as_ref()
    }
}

/// What following a link whose raw value is `raw` does: a decodable link
/// clears the page, stashes the override, and issues the fetch of the
/// destination; an inert link applies plain axis-separated movement.
pub open spec fn link_follow_post(
    pre: Navigator,
    post: Navigator,
    req: Option<Vec<u8>>,
    raw: Seq<u8>,
    ox: int,
    oy: int,
) -> bool {
    match spec_decode(raw) {
        Some((u, t)) => {
            &&& post.page is None
            &&& post.requesting
            &&& req matches Some(ru) && ru@ == u
            &&& match (post.pending_target, t) {
                (Some(a), Some(b)) => (a.0 as int, a.1 as int) == b,
                (None, None) => true,
                _ => false,
            }
            &&& post.pos == pre.pos
            &&& post.bootstrap_url == pre.bootstrap_url
        },
        None => {
            &&& post.page == pre.page
            &&& !post.requesting
            &&& req is None
            &&& post.pending_target == pre.pending_target
            &&& post.bootstrap_url == pre.bootstrap_url
            &&& pre.page matches Some(p) && {
                let m = sp_move(
                    p.map@,
                    pre.pos.0 as int,
                    pre.pos.1 as int,
                    sp_norm(ox, oy).0,
                    sp_norm(ox, oy).1,
                );
                (post.pos.0 as int, post.pos.1 as int) == (clamp_pos(m.0), clamp_pos(m.1))
            }
        },
    }
}

/// The whole contract of one step, by the state before it.
pub open spec fn step_post(
    pre: Navigator,
    post: Navigator,
    req: Option<Vec<u8>>,
    ox: int,
    oy: int,
) -> bool {
    if pre.requesting {
        &&& post == pre
        &&& req is None
    } else if pre.page is None {
        &&& post.page is None
        &&& post.requesting
        &&& post.pos == pre.pos
        &&& post.facing == pre.facing
        &&& post.pending_target == pre.pending_target
        &&& post.bootstrap_url == pre.bootstrap_url
        &&& req matches Some(u) && u@ == pre.bootstrap_url@
    } else {
        &&& post.facing == sp_face(pre.facing, ox, oy)
        &&& pre.page matches Some(p) && {
            let q = sp_prospective(pre.pos.0 as int, pre.pos.1 as int, ox, oy);
            if sp_cell_hit(p.links@, q.0, q.1) {
                exists|k: int|
                    0 <= k < p.links@.len() && sp_collide(
                        q.0,
                        q.1,
                        (#[trigger] p.links@[k]).0.0 as int * TILE_MILLI,
                        p.links@[k].0.1 as int * TILE_MILLI,
                    ) && link_follow_post(pre, post, req, p.links@[k].1@, ox, oy)
            } else {
                &&& post.page == pre.page
                &&& !post.requesting
                &&& req is None
                &&& post.pending_target == pre.pending_target
                &&& post.bootstrap_url == pre.bootstrap_url
                &&& ({
                    let m = sp_move(
                        p.map@,
                        pre.pos.0 as int,
                        pre.pos.1 as int,
                        sp_norm(ox, oy).0,
                        sp_norm(ox, oy).1,
                    );
                    (post.pos.0 as int, post.pos.1 as int) == (clamp_pos(m.0), clamp_pos(m.1))
                })
            }
        }
    }
}

/// The whole contract of delivering a response: a parse failure returns to
/// `Empty` with everything else kept; a parsed page is installed with the
/// player at the stashed override or the page's own spawn (tiles scaled to
/// pixels), and the override cleared.
pub open spec fn response_post(
    pre: Navigator,
    post: Navigator,
    url: Seq<u8>,
    body: Seq<u8>,
) -> bool {
    &&& post.facing == pre.facing
    &&& post.bootstrap_url == pre.bootstrap_url
    &&& !post.requesting
    &&& match spec_parse_document(body) {
        None => {
            &&& post.page is None
            &&& post.pos == pre.pos
            &&& post.pending_target == pre.pending_target
        },
        Some(doc) => {
            &&& post.page matches Some(p) && page_matches(p, doc, url)
            &&& post.pending_target is None
            &&& ({
                let sp = match pre.pending_target {
                    Some(t) => (t.0 as int, t.1 as int),
                    None => spawn_of(doc),
                };
                (post.pos.0 as int, post.pos.1 as int) == (
                    clamp_pos(sp.0 * 16),
                    clamp_pos(sp.1 * 16),
                )
            })
        },
    }
}

/// Only one request is ever outstanding: a step taken while a request is
/// outstanding changes nothing and issues no further request.
pub proof fn lemma_single_outstanding_request(
    pre: Navigator,
    post: Navigator,
    req: Option<Vec<u8>>,
    ox: int,
    oy: int,
)
    requires
        pre.requesting,
        step_post(pre, post, req, ox, oy),
    ensures
        req is None,
        post == pre,
{
}

/// A position component clamped to the resolver's range.
fn clamp_i64(v: i64) -> (r: i64)
    ensures
        r as int == clamp_pos(v as int),
        sp_abs(r as int) <= POS_LIMIT,
{
    if v > POS_LIMIT {
        POS_LIMIT
    } else if v < -POS_LIMIT {
        -POS_LIMIT
    } else {
        v
    }
}

/// A spawn coordinate in thousandths of a tile, scaled to thousandths of a
/// pixel and clamped to the resolver's range.
fn spawn_to_px(v: i64) -> (r: i64)
    ensures
        r as int == clamp_pos(v as int * 16),
        sp_abs(r as int) <= POS_LIMIT,
{
    let w: i128 = v as i128 * 16;
    if w > POS_LIMIT as i128 {
        POS_LIMIT
    } else if w < -(POS_LIMIT as i128) {
        -POS_LIMIT
    } else {
        w as i64
    }
}

impl Navigator {
    /// Advance the simulation by one frame with the desired offset, in
    /// thousandths of a pixel. Returns the URL the host must fetch, if this
    /// step issued a request: from `Empty` the bootstrap URL, from `Active`
    /// a decoded link destination on link contact. At most one request is
    /// ever outstanding.
    pub fn step(&mut self, ox: i64, oy: i64) -> (req: Option<Vec<u8>>)
        requires
            old(self).wf(),
        ensures
            final(self).wf(),
            step_post(*old(self), *final(self), req, ox as int, oy as int),
    {
        if self.requesting {
            return None;
        }
        if self.page.is_none() {
            self.requesting = true;
            return Some(copy_bytes(&self.bootstrap_url));
        }
        if oy > 0 {
            self.facing = Facing::South;
        } else if oy < 0 {
            self.facing = Facing::North;
        } else if ox > 0 {
            self.facing = Facing::East;
        } else if ox < 0 {
            self.facing = Facing::West;
        }
        let outcome = match &self.page {
            Some(p) => resolve_step(p, self.pos.0, self.pos.1, ox, oy),
            None => StepOutcome::Moved((self.pos.0, self.pos.1)),
        };
        match outcome {
            StepOutcome::Moved(m) => {
                self.pos = (clamp_i64(m.0), clamp_i64(m.1));
                None
            },
            StepOutcome::LinkActivated(raw) => {
                match decode(&raw) {
                    Some(lt) => {
                        self.pending_target = lt.target;
                        self.page = None;
                        self.requesting = true;
                        Some(lt.url)
                    },
                    None => {
                        let m = match &self.page {
                            Some(p) => move_step(p, self.pos.0, self.pos.1, ox, oy),
                            None => (self.pos.0, self.pos.1),
                        };
                        self.pos = (clamp_i64(m.0), clamp_i64(m.1));
                        None
                    },
                }
            },
        }
    }

    /// Deliver the body of the one outstanding request. A well-formed
    /// document becomes the active page, with the player at the stashed
    /// override or the page's spawn; anything else returns to `Empty` so a
    /// later step can retry.
    pub fn on_response(&mut self, url: Vec<u8>, body: &Vec<u8>)
        requires
            old(self).wf(),
            old(self).requesting,
            body@.len() <= doc_len_limit(),
        ensures
            final(self).wf(),
            response_post(*old(self), *final(self), url@, body@),
    {
        self.requesting = false;
        match Page::parse(body, url) {
            Ok(p) => {
                let sp: (i64, i64) = match self.pending_target {
                    Some(t) => t,
                    None => p.spawn,
                };
                self.pos = (spawn_to_px(sp.0), spawn_to_px(sp.1));
                self.pending_target = None;
                self.page = Some(p);
            },
            Err(_) => {
                self.page = None;
            },
        }
    }
}

} // verus!
