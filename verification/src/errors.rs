//! The errors the composition protocol and the group editor surface.

use vstd::prelude::*;
use vstd::string::StringExecFns;

verus! {

/// An error raised by the admission protocol.
#[derive(Debug, Clone, PartialEq, Eq)]
pub enum AppError {
    /// Strict admission found an existing unique entry of the same name,
    /// or an admission named a plugin whose registration is still mid-build
    /// (its slot holds a placeholder).
    DuplicatePlugin {
        /// The name the failing admission carried.
        plugin_name: String,
    },
}

impl AppError {
    /// A readable description of the error.
    pub fn describe(&self) -> (r: String)
        ensures
            (match self {
                AppError::DuplicatePlugin { plugin_name } => r@ == "duplicate plugin: "@ + plugin_name@,
            }),
    {
        match self {
            AppError::DuplicatePlugin { plugin_name } => {
                let mut s = String::new();
                s.append("duplicate plugin: ");
                s.append(plugin_name.as_str());
                proof {
                    assert(s@ =~= "duplicate plugin: "@ + plugin_name@);
                }
                s
            }
        }
    }
}

/// An error raised by a plugin group ordering edit that referenced a
/// missing entry.
#[derive(Debug, Clone, PartialEq, Eq)]
pub enum GroupBuildError {
    /// The named anchor entry is not in the group.
    AnchorNotFound {
        /// The anchor name the failing edit referenced.
        name: String,
    },
}

} // verus!
