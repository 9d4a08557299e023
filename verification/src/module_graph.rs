//! The module graph as the classifier reads it.

use vstd::prelude::*;
use vstd::string::StringExecFns;

verus! {

/// Where a module runs, as far as the classifier tells layers apart.
#[derive(Clone, Copy, PartialEq, Eq, Debug, Structural)]
pub enum Layer {
    /// The layer tagged `client`.
    Client,
    /// The layer tagged `app-client`.
    AppClient,
    /// Any other layer.
    Other,
}

impl Layer {
    /// The layer that a tag names.
    pub open spec fn of_tag(tag: Seq<char>) -> Layer {
        if tag == "client"@ {
            Layer::Client
        } else if tag == "app-client"@ {
            Layer::AppClient
        } else {
            Layer::Other
        }
    }

    /// Whether modules of the layer run in the browser.
    pub open spec fn on_client(self) -> bool {
        self is Client || self is AppClient
    }

    /// Maps a free-form layer tag into the enumeration.
    pub fn from_tag(tag: &str) -> (layer: Layer)
        ensures
            layer == Layer::of_tag(tag@),
    {
        let tag = tag.to_owned();
        if tag == String::from_str("client") {
            Layer::Client
        } else if tag == String::from_str("app-client") {
            Layer::AppClient
        } else {
            Layer::Other
        }
    }

    /// Whether modules of the layer run in the browser.
    pub fn is_client(&self) -> (client: bool)
        ensures
            client == self.on_client(),
    {
        match self {
            Layer::Client => true,
            Layer::AppClient => true,
            Layer::Other => false,
        }
    }
}

/// A node of the module graph.
#[derive(Debug)]
pub struct SingleModuleGraphNode {
    /// The handle of the module.
    pub module: u64,
    /// The tag of the layer that the module belongs to, if it has one.
    pub layer: Option<String>,
    /// Whether the module was produced as the target of a lazy load.
    pub next_dynamic_entry: bool,
    /// Whether the module stands at the boundary between server and client.
    pub client_reference: bool,
}

/// The modules of one build, in the order in which the graph enumerates them.
#[derive(Debug)]
pub struct SingleModuleGraph {
    pub nodes: Vec<SingleModuleGraphNode>,
}

} // verus!
