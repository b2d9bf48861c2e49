//! Verified text, style and layout-bookkeeping logic of a Mermaid-to-SVG
//! renderer.

pub mod text;
pub mod label;
pub mod markup;
pub mod style;
pub mod color;
pub mod metrics;
pub mod theme;
pub mod error;
pub mod timeline;
pub mod treemap;
pub mod mindmap;
pub mod pie;
pub mod kanban;
pub mod requirement;
pub mod journey;
pub mod sankey;
pub mod sequence;
pub mod events;
pub mod state;
