//! Configuration related structs and functions for renderer.

use std::path::PathBuf;
use vstd::prelude::*;

verus! {

#[verifier::external_type_specification]
#[verifier::external_body]
pub struct ExPathBuf(PathBuf);

/// Calls `PathBuf::from` on a string: the path with that text.
#[verifier::external_body]
fn path_from(text: &str) -> PathBuf {
    PathBuf::from(text)
}

/// Configuration of content system, rendering and other aspects of the renderer.
#[derive(Clone)]
pub struct RendererConfiguration {
    pub fullscreen: bool,
    pub resolution: [u16; 2],
    pub gpu: usize,
    pub content_roots: Vec<PathBuf>,
}

// default development configuration
impl Default for RendererConfiguration {
    fn default() -> (c: Self)
        ensures
            !c.fullscreen,
            c.resolution@ == seq![1600u16, 900u16],
            c.gpu == 0,
            c.content_roots@.len() == 1,
    {
        let roots = vec![path_from("C:\\Users\\Matej\\CLionProjects\\renderer\\assets\\target")];
        let c = Self { fullscreen: false, resolution: [1600, 900], gpu: 0, content_roots: roots };
        assert(c.resolution@ =~= seq![1600u16, 900u16]);
        c
    }
}

} // verus!
