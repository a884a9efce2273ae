//! The built-in suggestion database, embedded in the library so that the
//! rules apply outside a repository checkout.
use vstd::prelude::*;

use super::{
    bloat_views, conflict_views, default_rule_views, json_bloat_rule, json_conflict_rule,
    json_default_objects, json_default_rule, parse_suggestions, Suggestions,
};
use crate::json_scan::array_objects;

verus! {

/// The built-in rule database, in the JSON format of `suggestions.json`.
pub const BUILTIN_SUGGESTIONS_JSON: &'static str = r#"{
  "conflicts": [
    {
      "crate": "reqwest",
      "features": ["native-tls", "rustls-tls"],
      "severity": "error",
      "message": "TLS backends are mutually exclusive. Choose exactly one (native-tls, rustls-tls, or default-tls)."
    },
    {
      "crate": "openssl",
      "features": ["vendored", "bindgen"],
      "severity": "warning",
      "message": "Vendored OpenSSL and bindgen-generated bindings are rarely needed together. Review the build configuration."
    }
  ],
  "bloat": [
    {
      "crate": "tokio",
      "feature": "full",
      "pulls_in": ["mio", "parking_lot", "signal-hook-registry"],
      "severity": "info",
      "message": "The `full` feature enables every Tokio component. Enable only the runtime pieces the crate uses."
    },
    {
      "crate": "syn",
      "feature": "full",
      "pulls_in": [],
      "severity": "info",
      "message": "The `full` feature parses the whole Rust grammar and adds noticeable compile time."
    }
  ],
  "default_features": {
    "suggest_opt_out": [
      {
        "crate": "serde",
        "severity": "info",
        "reason": "Default features enable 'std'. Opt out with default-features = false for no_std targets."
      },
      {
        "crate": "log",
        "severity": "info",
        "reason": "Default features are rarely needed by libraries; opt out when building a no-std logger setup."
      },
      {
        "crate": "reqwest",
        "severity": "info",
        "reason": "Default features enable default-tls. Opt out to choose a TLS backend explicitly."
      }
    ]
  }
}
"#;

/// The rules of the built-in database.
pub open spec fn loaded(r: Suggestions) -> bool {
    &&& conflict_views(r.conflicts@) == array_objects(BUILTIN_SUGGESTIONS_JSON@, "conflicts"@).filter_map(
        |o: Seq<char>| json_conflict_rule(o),
    )
    &&& bloat_views(r.bloat@) == array_objects(BUILTIN_SUGGESTIONS_JSON@, "bloat"@).filter_map(
        |o: Seq<char>| json_bloat_rule(o),
    )
    &&& default_rule_views(r.default_features@) == json_default_objects(
        BUILTIN_SUGGESTIONS_JSON@,
    ).filter_map(|o: Seq<char>| json_default_rule(o))
}

/// Load the built-in suggestion database embedded in the released binary.
pub fn load() -> (r: Suggestions)
    ensures
        loaded(r),
{
    parse_suggestions(BUILTIN_SUGGESTIONS_JSON)
}

} // verus!
