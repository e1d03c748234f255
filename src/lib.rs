//! Blanking overlays for named display outputs.
//!
//! The library holds the decisions of the program: which outputs get an
//! overlay, when an overlay is painted and with what, when the overlays go
//! away, and how a second start toggles a running instance off. The transport
//! calls, signals and files are performed by the caller, which hands the
//! library plain values and acts on what it returns.
pub mod framebuffer;
pub mod lockfile;
pub mod overlay;
