//! A page-graph navigation engine for a small explorable 2D tile world.
//!
//! Rooms ("pages") are symbolic-expression plist documents fetched on demand
//! from a host. This crate holds the verified core: parsing a page document
//! into a tile/link model, resolving player movement against that model with
//! axis-separated collision, decoding spatially-anchored hyperlinks, and the
//! navigator state machine that turns link contact into a fetch-and-reanchor
//! transition. All continuous quantities (positions, spawn points, movement
//! offsets) are fixed-point integers in thousandths of a unit.

mod sexpr;
mod page;
mod motion;
mod link;
mod navigator;
mod tiles;

pub use sexpr::SValue;
pub use sexpr::SVal;
pub use page::Page;
pub use page::PageEntity;
pub use page::PageTile;
pub use page::ParseError;
pub use motion::StepOutcome;
pub use motion::rect_collide;
pub use motion::normalize;
pub use motion::resolve_step;
pub use motion::isqrt_u128;
pub use link::LinkTarget;
pub use link::decode;
pub use navigator::Navigator;
pub use navigator::Facing;
pub use tiles::Tiles;
pub use tiles::Tiledef;
pub use tiles::Tileset;
