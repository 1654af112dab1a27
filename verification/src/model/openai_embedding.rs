//! Embeddings from a provider that speaks the OpenAI protocol.
use vstd::prelude::*;

use crate::error;
use crate::error::{EngineError, Result};
use crate::model::embedding::Embedding;
use crate::text;
use crate::text::{is_blank, trim_trailing_slashes, IntoText};
use crate::time::Duration;

verus! {

/// The provider that is asked unless another is given.
pub const DEFAULT_BASE_URL: &'static str = "https://api.openai.com/v1";

/// Where embeddings come from.
#[derive(Debug, PartialEq, Eq)]
pub struct OpenAiEmbeddingConfig {
    pub base_url: String,
    pub model: String,
    pub api_key: String,
    pub dimensions: Option<u32>,
    pub timeout: Duration,
}

impl Clone for OpenAiEmbeddingConfig {
    fn clone(&self) -> (result: Self)
        ensures
            result == *self,
    {
        OpenAiEmbeddingConfig {
            base_url: self.base_url.clone(),
            model: self.model.clone(),
            api_key: self.api_key.clone(),
            dimensions: self.dimensions,
            timeout: self.timeout,
        }
    }
}

impl OpenAiEmbeddingConfig {
    /// A model at the default provider.
    pub fn new<M: IntoText, K: IntoText>(model: M, api_key: K) -> (config: Self)
        ensures
            config.base_url@ == DEFAULT_BASE_URL@,
            config.model@ == model.chars(),
            config.api_key@ == api_key.chars(),
            config.dimensions is None,
            config.timeout.secs == 30,
            config.timeout.nanos == 0,
    {
        OpenAiEmbeddingConfig {
            base_url: DEFAULT_BASE_URL.to_string(),
            model: model.into_text(),
            api_key: api_key.into_text(),
            dimensions: None,
            timeout: Duration::from_secs(30),
        }
    }

    /// The same at another provider.
    pub fn with_base_url<U: IntoText>(self, base_url: U) -> (config: Self)
        ensures
            config.base_url@ == base_url.chars(),
            config == (OpenAiEmbeddingConfig { base_url: config.base_url, ..self }),
    {
        let mut config = self;
        config.base_url = base_url.into_text();
        config
    }

    /// The same with another number of dimensions.
    pub fn with_dimensions(self, dimensions: u32) -> (config: Self)
        ensures
            config == (OpenAiEmbeddingConfig { dimensions: Some(dimensions), ..self }),
    {
        let mut config = self;
        config.dimensions = Some(dimensions);
        config
    }

    /// Why the configuration is refused, if it is.
    pub open spec fn fault(self) -> Option<Seq<char>> {
        if text::blank(self.base_url@) {
            Some("OpenAI-compatible embedding base_url must not be empty"@)
        } else if text::blank(self.model@) {
            Some("OpenAI-compatible embedding model must not be empty"@)
        } else if text::blank(self.api_key@) {
            Some("OpenAI-compatible embedding api_key must not be empty"@)
        } else {
            None
        }
    }

    /// Refuses a configuration that leaves something out.
    pub fn validate(&self) -> (result: Result<()>)
        ensures
            match self.fault() {
                Some(message) => result is Err && error::is_configuration(result->Err_0, message),
                None => result is Ok,
            },
    {
        if is_blank(self.base_url.as_str()) {
            return Err(
                EngineError::Configuration(
                    "OpenAI-compatible embedding base_url must not be empty".to_string(),
                ),
            );
        }
        if is_blank(self.model.as_str()) {
            return Err(
                EngineError::Configuration(
                    "OpenAI-compatible embedding model must not be empty".to_string(),
                ),
            );
        }
        if is_blank(self.api_key.as_str()) {
            return Err(
                EngineError::Configuration(
                    "OpenAI-compatible embedding api_key must not be empty".to_string(),
                ),
            );
        }
        Ok(())
    }

    /// Where embeddings are asked for.
    pub fn embeddings_url(&self) -> (url: String)
        ensures
            url@ == text::without_trailing_slashes(self.base_url@) + "/embeddings"@,
    {
        trim_trailing_slashes(self.base_url.as_str()).concat("/embeddings")
    }
}

/// One embedding of a response.
#[derive(Debug, PartialEq, Eq)]
pub struct EmbeddingData {
    pub embedding: Embedding,
    pub index: Option<usize>,
}

/// Which embedding of a response is taken: a later one that says it is the
/// first, or else the one that comes first.
pub open spec fn chosen_embedding(data: Seq<EmbeddingData>, start: int) -> int
    decreases data.len() - start,
{
    if start < 1 || start >= data.len() {
        0
    } else if data[start].index == Some(0usize) {
        start
    } else {
        chosen_embedding(data, start + 1)
    }
}

/// Takes the embedding of a response.
pub fn first_embedding(data: Vec<EmbeddingData>) -> (result: Result<Embedding>)
    ensures
        if data@.len() == 0 {
            result is Err && error::is_model(
                result->Err_0,
                "embedding response did not contain data"@,
            )
        } else {
            result is Ok && result->Ok_0.0@ == data@[chosen_embedding(data@, 1)].embedding.0@
        },
{
    if data.len() == 0 {
        return Err(EngineError::Model("embedding response did not contain data".to_string()));
    }
    let mut index: usize = 1;
    while index < data.len()
        invariant
            1 <= index <= data.len(),
            chosen_embedding(data@, index as int) == chosen_embedding(data@, 1),
        decreases data.len() - index,
    {
        let is_first = match data[index].index {
            Some(position) => position == 0,
            None => false,
        };
        if is_first {
            return Ok(data[index].embedding.clone());
        }
        index = index + 1;
    }
    Ok(data[0].embedding.clone())
}

/// The embedding that is taken is the first after the front that says it is the
/// first one, and the front one where none does.
pub proof fn the_first_embedding_is_taken(data: Seq<EmbeddingData>)
    requires
        data.len() > 0,
    ensures
        ({
            let marked = data.skip(1).map_values(|item: EmbeddingData| item.index == Some(0usize));
            chosen_embedding(data, 1) == if marked.contains(true) {
                1 + marked.index_of_first(true)->0
            } else {
                0
            }
        }),
{
    let marked = data.skip(1).map_values(|item: EmbeddingData| item.index == Some(0usize));
    marked.index_of_first_ensures(true);
    chosen_is_first(data, marked, 1);
}

proof fn chosen_is_first(data: Seq<EmbeddingData>, marked: Seq<bool>, start: int)
    requires
        1 <= start <= data.len(),
        marked == data.skip(1).map_values(|item: EmbeddingData| item.index == Some(0usize)),
        forall|i: int| 0 <= i < start - 1 ==> !#[trigger] marked[i],
    ensures
        chosen_embedding(data, start) == if marked.contains(true) {
            1 + marked.index_of_first(true)->0
        } else {
            0
        },
    decreases data.len() - start,
{
    marked.index_of_first_ensures(true);
    if start < data.len() {
        assert(marked[start - 1] == (data[start].index == Some(0usize)));
        if data[start].index == Some(0usize) {
            assert(marked.contains(true));
            let k = marked.index_of_first(true)->0;
            assert(marked[k]);
            if k > start - 1 {
                assert(marked[start - 1] != true);
            }
        } else {
            chosen_is_first(data, marked, start + 1);
        }
    } else if marked.contains(true) {
        let k = choose|k: int| 0 <= k < marked.len() && marked[k] == true;
        assert(!marked[k]);
    }
}

/// A provider is asked exactly where the configuration says where it is, which
/// model to ask and under which key.
pub proof fn complete_embedding_configurations_are_accepted(config: OpenAiEmbeddingConfig)
    ensures
        config.fault() is None <==> !text::blank(config.base_url@) && !text::blank(config.model@)
            && !text::blank(config.api_key@),
{
}

} // verus!
