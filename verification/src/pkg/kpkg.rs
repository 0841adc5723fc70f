//! What the command line decides.

use vstd::prelude::*;
use crate::daemon::recall;
use crate::memory::protocol;
use crate::memory::protocol::HitView;
use crate::memory::protocol::MemoryHit;
use crate::memory::protocol::MemoryLayer;
use crate::memory::protocol::MemoryQuery;
use crate::memory::wire::QueryView;

verus! {

/// The layer that a word names, or what is wrong with the word.
pub open spec fn layer_named(word: Seq<char>) -> Result<MemoryLayer, Seq<char>> {
    match protocol::layer_of(word) {
        Some(layer) => Ok(layer),
        None => Err(
            "unknown layer '"@ + word + "' (episodic|semantic|procedural|identity)"@,
        ),
    }
}

/// A layer, or what is wrong.
pub open spec fn layer_result(result: Result<MemoryLayer, String>) -> Result<
    MemoryLayer,
    Seq<char>,
> {
    match result {
        Ok(layer) => Ok(layer),
        Err(e) => Err(e@),
    }
}

/// The layer that a word names.
pub fn parse_layer(word: &str) -> (result: Result<MemoryLayer, String>)
    ensures
        layer_result(result) == layer_named(word@),
{
    match MemoryLayer::from_wire(word) {
        Some(layer) => Ok(layer),
        None => {
            let mut words = "unknown layer '".to_string();
            words.append(word);
            words.append("' (episodic|semantic|procedural|identity)");
            Err(words)
        },
    }
}

/// The time that lies so many days back; the beginning where no number is given or time does
/// not reach back so far.
pub open spec fn since(days: Option<u64>, now_ms: u64) -> u64 {
    match days {
        Some(d) => if d * protocol::DAY_MS <= now_ms {
            (now_ms - d * protocol::DAY_MS) as u64
        } else {
            0
        },
        None => 0,
    }
}

/// What is shown of the memory.
pub struct Inspection {
    /// Whether the profile is shown.
    pub identity: bool,
    /// What is asked for beside it.
    pub query: Option<MemoryQuery>,
}

/// What such an inspection is.
#[verifier::ext_equal]
pub struct InspectionView {
    pub identity: bool,
    pub query: Option<QueryView>,
}

impl View for Inspection {
    type V = InspectionView;

    open spec fn view(&self) -> InspectionView {
        InspectionView {
            identity: self.identity,
            query: match self.query {
                Some(q) => Some(q@),
                None => None,
            },
        }
    }
}

/// What is shown: one layer where one is named, else all. The profile has no list of its own.
pub open spec fn inspection(
    layer: Option<Seq<char>>,
    since_days: Option<u64>,
    now_ms: u64,
) -> Result<InspectionView, Seq<char>> {
    match layer {
        None => Ok(
            InspectionView {
                identity: true,
                query: Some(
                    QueryView::Recent {
                        since_ms: since(since_days, now_ms),
                        layers: Seq::empty(),
                    },
                ),
            },
        ),
        Some(word) => match layer_named(word) {
            Err(e) => Err(e),
            Ok(MemoryLayer::Identity) => Ok(InspectionView { identity: true, query: None }),
            Ok(l) => Ok(
                InspectionView {
                    identity: false,
                    query: Some(
                        QueryView::Recent {
                            since_ms: since(since_days, now_ms),
                            layers: seq![l],
                        },
                    ),
                },
            ),
        },
    }
}

/// What is shown of the memory, for a layer and a number of days that may be given.
pub fn inspect(layer: Option<&str>, since_days: Option<u64>, now_ms: u64) -> (result: Result<
    Inspection,
    String,
>)
    ensures
        (match result {
            Ok(i) => Ok(i@),
            Err(e) => Err(e@),
        }) == inspection(
            match layer {
                Some(l) => Some(l@),
                None => None,
            },
            since_days,
            now_ms,
        ),
{
    let since_ms: u64 = match since_days {
        Some(d) => match d.checked_mul(protocol::DAY_MS) {
            Some(span) => now_ms.saturating_sub(span),
            None => 0,
        },
        None => 0,
    };
    let mut layers: Vec<MemoryLayer> = Vec::new();
    match layer {
        None => {
            assert(layers@ =~= Seq::<MemoryLayer>::empty());
            Ok(
                Inspection {
                    identity: true,
                    query: Some(MemoryQuery::Recent { since_ms, layers }),
                },
            )
        },
        Some(word) => match parse_layer(word) {
            Err(e) => Err(e),
            Ok(l) => {
                if l == MemoryLayer::Identity {
                    return Ok(Inspection { identity: true, query: None });
                }
                layers.push(l);
                assert(layers@ =~= seq![l]);
                Ok(
                    Inspection {
                        identity: false,
                        query: Some(MemoryQuery::Recent { since_ms, layers }),
                    },
                )
            },
        },
    }
}

/// A memory on one line.
pub open spec fn shown_line(hit: HitView) -> Seq<char> {
    "["@ + hit.layer.title() + "] "@ + hit.id + "\t"@ + recall::flat(hit.content)
}

/// A memory on one line.
pub fn hit_line(hit: &MemoryHit) -> (line: String)
    ensures
        line@ == shown_line(hit@),
{
    let mut line = "[".to_string();
    line.append(hit.layer.title_text());
    line.append("] ");
    line.append(hit.id.as_str());
    line.append("\t");
    line.append(recall::flat_text(hit.content.as_str()).as_str());
    line
}

/// What is said after an entry was to be deleted.
pub fn deletion_message(id: &str, removed: bool) -> (words: String)
    ensures
        words@ == (if removed {
            "deleted "@ + id@
        } else {
            "no entry with id "@ + id@
        }),
{
    if removed {
        "deleted ".to_string().concat(id)
    } else {
        "no entry with id ".to_string().concat(id)
    }
}

/// Whether all memory may be erased: only where it was confirmed.
pub fn confirm_clear(yes: bool) -> (result: Result<(), String>)
    ensures
        match result {
            Ok(()) => yes,
            Err(e) => !yes && e@ == "refusing to erase all memory without --yes"@,
        },
{
    if yes {
        Ok(())
    } else {
        Err("refusing to erase all memory without --yes".to_string())
    }
}

/// The trusted keys for a command: those that could be read, and none for a command that only
/// reads where they could not.
pub fn trust_for(read_only: bool, keys: Result<Vec<String>, String>) -> (result: Result<
    Vec<String>,
    String,
>)
    ensures
        match (result, keys) {
            (Ok(trust), Ok(k)) => trust@ == k@,
            (Ok(trust), Err(e)) => read_only && trust@.len() == 0,
            (Err(e), Ok(k)) => false,
            (Err(e), Err(f)) => !read_only && e@ == f@,
        },
{
    match keys {
        Ok(k) => Ok(k),
        Err(e) => if read_only {
            Ok(Vec::new())
        } else {
            Err(e)
        },
    }
}

} // verus!
