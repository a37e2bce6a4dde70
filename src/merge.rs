//! How several language variants of one title are combined.

use vstd::prelude::*;
use vstd::string::*;

verus! {

/// How several language variants of one title are combined into the output.
#[derive(Clone, Copy, Debug, PartialEq, Eq, Structural)]
pub enum MergeBehavior {
    Video,
    Audio,
    Auto,
    Sync,
}

/// What `str::to_lowercase` returns for a string; it depends on the characters alone.
pub uninterp spec fn lower_of(s: Seq<char>) -> Seq<char>;

/// Relies on `str::to_lowercase`: the lower-case form of `s`.
#[verifier::external_body]
fn lowercase(s: &str) -> (r: String)
    ensures
        r@ == lower_of(s@),
{
    s.to_lowercase()
}

/// The behavior spelled by an already lower-cased name.
pub open spec fn behavior_named(l: Seq<char>) -> Option<MergeBehavior> {
    if l == "video"@ {
        Some(MergeBehavior::Video)
    } else if l == "audio"@ {
        Some(MergeBehavior::Audio)
    } else if l == "auto"@ {
        Some(MergeBehavior::Auto)
    } else if l == "sync"@ {
        Some(MergeBehavior::Sync)
    } else {
        None
    }
}

/// The message given for a name that is no merge behavior.
pub open spec fn invalid_behavior_message(s: Seq<char>) -> Seq<char> {
    "'"@ + s + "' is not a valid merge behavior"@
}

impl MergeBehavior {
    /// Reads a behavior from its lower-case name.
    pub fn parse_lowered(l: &str) -> (r: Option<MergeBehavior>)
        ensures
            r == behavior_named(l@),
    {
        let l = String::from_str(l);
        if l == String::from_str("video") {
            Some(MergeBehavior::Video)
        } else if l == String::from_str("audio") {
            Some(MergeBehavior::Audio)
        } else if l == String::from_str("auto") {
            Some(MergeBehavior::Auto)
        } else if l == String::from_str("sync") {
            Some(MergeBehavior::Sync)
        } else {
            None
        }
    }

    /// Reads a behavior from its name, ignoring case.
    pub fn parse(s: &str) -> (r: Result<MergeBehavior, String>)
        ensures
            behavior_named(lower_of(s@)) matches Some(b) ==> r == Ok::<MergeBehavior, String>(b),
            behavior_named(lower_of(s@)) is None ==> (r matches Err(e) && e@ == invalid_behavior_message(s@)),
    {
        let lowered = lowercase(s);
        match MergeBehavior::parse_lowered(lowered.as_str()) {
            Some(b) => Ok(b),
            None => {
                let mut e = String::from_str("'");
                e.append(s);
                e.append("' is not a valid merge behavior");
                Err(e)
            },
        }
    }
}

} // verus!
