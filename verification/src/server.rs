//! The server and its one setting: the directory that the file route works in.

use vstd::prelude::*;
use std::sync::Arc;
use crate::message::text_view;

verus! {

/// What every connection reads and none changes.
#[derive(Debug)]
pub struct HttpServer {
    /// The directory of the file route. Without one, that route answers 404.
    pub file_dir: Option<String>,
}

/// The server as the program holds it: one `HttpServer`, shared by all
/// connections.
#[derive(Debug)]
pub struct CodeCraftsHttpServer {
    pub server: Arc<HttpServer>,
}

impl CodeCraftsHttpServer {
    /// A server whose file route works in `file_dir`, if one is given.
    pub fn new(file_dir: Option<&String>) -> (made: Self)
        ensures
            text_view(made.server.file_dir) == match file_dir {
                Some(dir) => Some(dir@),
                None => None,
            },
    {
        let file_dir = match file_dir {
            Some(dir) => Some(dir.clone()),
            None => None,
        };
        CodeCraftsHttpServer { server: Arc::new(HttpServer { file_dir }) }
    }
}

} // verus!
