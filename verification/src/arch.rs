//! Which architecture a file carries.

use crate::config::{ConfigError, ConfigErrorView};
use crate::header::{meta_str, Header, HeaderView};
use crate::text;
use vstd::prelude::*;

verus! {

/// Which architecture a file carries, for dispatch at the entry points.
#[derive(Debug, Clone, Copy, PartialEq, Eq, Structural)]
pub enum Arch {
    Gemma4,
    /// Both the hybrid stack and plain dense qwen3, which is the same stack with
    /// the delta-net layers and the query gate switched off.
    Qwen35,
}

/// The architecture of a name.
pub open spec fn named(name: Seq<char>) -> Option<Arch> {
    if name == "gemma4"@ {
        Some(Arch::Gemma4)
    } else if name == "qwen35"@ || name == "qwen3"@ {
        Some(Arch::Qwen35)
    } else {
        None
    }
}

/// The architecture of a file.
pub open spec fn detected(h: HeaderView) -> Result<Arch, ConfigErrorView> {
    match meta_str(h, "general.architecture"@) {
        Err(e) => Err(ConfigErrorView::Gguf(e)),
        Ok(name) => match named(name) {
            Some(a) => Ok(a),
            None => Err(ConfigErrorView::Architecture(name)),
        },
    }
}

impl Arch {
    pub fn detect(h: &Header) -> (r: Result<Arch, ConfigError>)
        ensures
            match r {
                Ok(a) => detected(h@) == Ok::<Arch, ConfigErrorView>(a),
                Err(e) => detected(h@) == Err::<Arch, ConfigErrorView>(e@),
            },
    {
        let name = match h.str("general.architecture") {
            Ok(s) => s,
            Err(e) => {
                return Err(ConfigError::Gguf(e));
            },
        };
        if text::str_eq(name, "gemma4") {
            Ok(Arch::Gemma4)
        } else if text::str_eq(name, "qwen35") || text::str_eq(name, "qwen3") {
            Ok(Arch::Qwen35)
        } else {
            Err(ConfigError::Architecture(name.to_owned()))
        }
    }
}

} // verus!
