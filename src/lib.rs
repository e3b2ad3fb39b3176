//! A CPU-side RGBA framebuffer kept in step with a GPU texture, with clipped
//! blits, clearing, the copy layout used to upload it, and the mapping from
//! window coordinates to texels.

pub mod texture;
pub mod renderer;
