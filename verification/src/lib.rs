//! Spatial model and pathfinding engine for an isometric tile grid.
//!
//! The crate owns the exact grid model (`Pos`), the bidirectional
//! world/screen coordinate transform, the tile store with its occupancy
//! invariant, the frontier and reachability searches, shortest-path search,
//! tile picking, and the per-tick movement decisions. Screen coordinates are
//! held in quarter-pixel units so every transform is exact integer
//! arithmetic.

pub mod coordinates;
pub mod map;
pub mod movement;
pub mod picking;
pub mod pos;
pub mod search;
pub mod tile;
pub mod unit;

pub use coordinates::ScreenPoint;
pub use coordinates::ScreenPos;
pub use map::MapError;
pub use map::TileMap;
pub use movement::ChangeFacingEvent;
pub use movement::ValidMove;
pub use movement::get_facing;
pub use picking::ActiveTile;
pub use picking::ClickOutcome;
pub use picking::DeselectUnitEvent;
pub use picking::SelectUnitEvent;
pub use picking::SetPathEvent;
pub use pos::Pos;
pub use search::PathError;
pub use tile::Tile;
pub use tile::TileHeight;
pub use unit::Direction;
pub use unit::SelectMode;
pub use unit::SelectedUnit;
pub use unit::Unit;
pub use unit::UnitPluginGroup;
