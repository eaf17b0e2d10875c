//! The local models, which need no key, no network and no account.
use crate::shared::error::{RaError, Result};
use crate::text::{debug_text, decimal, decimal_text, fold, folded, quote, same_text};
use vstd::prelude::*;
use vstd::string::StringExecFns;

verus! {

/// How wide the vectors of every local model are. The table of vectors has one
/// width, so only models of this one are known.
pub const DEFAULT_DIMENSIONS: usize = 384;

/// A local model.
#[derive(Debug, Clone, Copy, PartialEq, Eq, Structural)]
pub enum LocalModel {
    BgeSmallEnV15,
    AllMiniLmL6V2,
}

/// The model that a name denotes, whatever its case and margins.
pub open spec fn local_model(name: Seq<char>) -> Option<LocalModel> {
    if folded(name) == "bge-small-en-v1.5"@ {
        Some(LocalModel::BgeSmallEnV15)
    } else if folded(name) == "all-minilm-l6-v2"@ {
        Some(LocalModel::AllMiniLmL6V2)
    } else {
        None
    }
}

pub fn resolve_model(name: &str) -> (model: Result<LocalModel>)
    ensures
        match model {
            Ok(m) => local_model(name@) == Some(m),
            Err(e) => local_model(name@) is None && e is Validation && e.text()
                == "unknown embedding model "@ + debug_text(folded(name@))
                + " (expected bge-small-en-v1.5 or all-minilm-l6-v2)"@,
        },
{
    let wanted = fold(name);
    if same_text(wanted.as_str(), "bge-small-en-v1.5") {
        Ok(LocalModel::BgeSmallEnV15)
    } else if same_text(wanted.as_str(), "all-minilm-l6-v2") {
        Ok(LocalModel::AllMiniLmL6V2)
    } else {
        let mut sentence = "unknown embedding model ".to_owned();
        sentence.append(quote(wanted.as_str()).as_str());
        sentence.append(" (expected bge-small-en-v1.5 or all-minilm-l6-v2)");
        Err(RaError::Validation(sentence))
    }
}

/// A batch is answered with one vector for each text, or it failed.
pub fn check_count(vectors: usize, inputs: usize) -> (checked: Result<()>)
    ensures
        match checked {
            Ok(_) => vectors == inputs,
            Err(e) => vectors != inputs && e is Internal && e.text() == "embedder returned "@
                + decimal(vectors as nat) + " vectors for "@ + decimal(inputs as nat) + " inputs"@,
        },
{
    if vectors == inputs {
        return Ok(());
    }
    let mut sentence = "embedder returned ".to_owned();
    sentence.append(decimal_text(vectors as u64).as_str());
    sentence.append(" vectors for ");
    sentence.append(decimal_text(inputs as u64).as_str());
    sentence.append(" inputs");
    Err(RaError::Internal(sentence))
}

/// Two names that differ in case or margins alone denote the same model, and
/// two that differ in more do not denote one both.
pub proof fn models_go_by_their_folded_names(a: Seq<char>, b: Seq<char>)
    ensures
        folded(a) == folded(b) ==> local_model(a) == local_model(b),
        local_model(a) is Some && local_model(a) == local_model(b) ==> folded(a) == folded(b),
        local_model(a) == Some(LocalModel::BgeSmallEnV15) <==> folded(a) == "bge-small-en-v1.5"@,
        local_model(a) == Some(LocalModel::AllMiniLmL6V2) <==> folded(a) == "all-minilm-l6-v2"@,
{
    reveal_strlit("bge-small-en-v1.5");
    reveal_strlit("all-minilm-l6-v2");
    assert("bge-small-en-v1.5"@[0] == 'b' && "all-minilm-l6-v2"@[0] == 'a');
}

} // verus!
