//! Ollama: the models that are installed.

use crate::collections::StrMap;
use crate::tally::{sort_texts, sorted_texts, text_list, to_list};
use crate::text::texts;
use crate::types::{MetaTree, MetaValue, ProviderReport, ProviderResult};
use vstd::prelude::*;

verus! {

pub struct OllamaProvider;

/// What Ollama reports of the models in its library, where there is one.
pub open spec fn ollama_report(library: Option<Seq<Seq<char>>>) -> ProviderReport {
    let blank = ProviderReport::blank("Ollama"@);
    match library {
        None => ProviderReport { invocations: Some(0), ..blank },
        Some(models) => ProviderReport {
            invocations: Some(models.len() as u64),
            metadata: Some(
                Map::empty().insert("models"@, text_list(sorted_texts(models))).insert(
                    "model_count"@,
                    MetaTree::Count(models.len() as u64),
                ),
            ),
            ..blank
        },
    }
}

/// Every model of the library is listed, sorted, and counts; without a library there are none.
pub proof fn law_models_are_listed(models: Seq<Seq<char>>)
    requires
        models.len() <= u64::MAX,
    ensures
        ({
            let report = ollama_report(Some(models));
            &&& report.provider == "Ollama"@
            &&& report.invocations == Some(models.len() as u64)
            &&& report.metadata is Some && report.metadata->0.contains_key("models"@)
                && report.metadata->0.contains_key("model_count"@)
            &&& report.metadata->0["models"@] is List
            &&& report.metadata->0["models"@]->List_0 == sorted_texts(models).map_values(
                |s: Seq<char>| MetaTree::Text(s),
            )
            &&& report.metadata->0["model_count"@] == MetaTree::Count(models.len() as u64)
            &&& report.tokens is None && report.hours is None && report.sessions is None
        }),
        ollama_report(None).invocations == Some(0u64),
        ollama_report(None).metadata is None,
{
    reveal_strlit("models");
    reveal_strlit("model_count");
    assert("models"@.len() != "model_count"@.len());
    assert(text_list(sorted_texts(models))->List_0 =~= sorted_texts(models).map_values(
        |s: Seq<char>| MetaTree::Text(s),
    ));
}

/// The names of a library that may be missing.
pub open spec fn library_texts(library: Option<Vec<String>>) -> Option<Seq<Seq<char>>> {
    match library {
        Some(models) => Some(texts(models@)),
        None => None,
    }
}

/// Every name of a library is read.
pub proof fn law_every_name_is_read(models: Vec<String>, i: int)
    requires
        0 <= i < models@.len(),
    ensures
        library_texts(Some(models)) is Some,
        library_texts(Some(models))->0.len() == models@.len(),
        library_texts(Some(models))->0[i] == models@[i]@,
        library_texts(None) is None,
{
}

impl OllamaProvider {
    /// Usage from the names in the library of models, where there is one.
    pub fn scan(&self, library: Option<Vec<String>>) -> (r: ProviderResult)
        ensures
            r.wf(),
            r@ == ollama_report(library_texts(library)),
    {
        let mut result = ProviderResult::new("Ollama");
        match library {
            None => {
                result.invocations = Some(0);
            },
            Some(models) => {
                let ghost names = texts(models@);
                let mut models = models;
                let count: u64 = models.len() as u64;
                sort_texts(&mut models);
                let mut metadata: StrMap<MetaValue> = StrMap::new();
                metadata.insert("models".to_string(), to_list(&models));
                metadata.insert("model_count".to_string(), MetaValue::Count(count));
                result.invocations = Some(count);
                result.metadata = Some(metadata);
                assert(result@.metadata->0 =~= ollama_report(Some(names)).metadata->0);
            },
        }
        result
    }
}

} // verus!
