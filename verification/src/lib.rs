//! Star polygons `{n/k}`: their notation, the editing of that notation one
//! keystroke at a time, and the layout of their vertices and edges.
pub mod editor;
pub mod geometry;
pub mod notation;
