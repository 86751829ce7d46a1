//! When and how memories are embedded. The model itself runs elsewhere.
use crate::measure::Measure;
use crate::text::{chars_of, concat, concat3, opt_text, text_eq, texts};
use vstd::prelude::*;

verus! {

/// The model's identifier.
pub const MODEL_ID: &'static str = "sentence-transformers/all-MiniLM-L6-v2";

/// The directory of the model among the models.
pub const MODEL_FOLDER: &'static str = "all-MiniLM-L6-v2";

/// Where models are kept, below a base directory.
pub const MODELS_DIR: &'static str = ".engram/models";

/// How many numbers the model gives.
pub const MODEL_DIMENSIONS: usize = 384;

/// How many tokens the model takes.
pub const MAX_LENGTH: usize = 256;

/// After how many seconds a failed load is tried again.
pub const RETRY_BACKOFF: u64 = 60;

/// What stands in where no embedder is configured: it gives no embeddings.
#[derive(Debug, Clone, Copy)]
pub struct NoopEmbedder;

impl NoopEmbedder {
    /// An empty embedding.
    pub fn embed(&self, text: &str) -> (r: Result<Vec<Measure>, String>)
        ensures
            r matches Ok(v) && v@.len() == 0,
    {
        Ok(Vec::new())
    }

    /// No dimensions.
    pub fn dimensions(&self) -> (r: usize)
        ensures
            r == 0,
    {
        0
    }

    /// The name that is stored with embeddings.
    pub fn model_name(&self) -> (r: &'static str)
        ensures
            r@ == "noop"@,
    {
        "noop"
    }
}

/// Whether an engram is embedded: a fact with more than a hundred characters, if there is an
/// embedder.
pub fn should_embed(layer: &str, content: &str, embedder_dims: usize) -> (r: bool)
    ensures
        r == (embedder_dims > 0 && layer@ == "semantic"@ && content@.len() > 100),
{
    if embedder_dims == 0 || !text_eq(layer, "semantic") {
        return false;
    }
    let all = chars_of(content);
    all.len() > 100
}

/// Texts with their embeddings, without those that could not be embedded or whose embedding is
/// empty.
pub open spec fn embedded_texts(
    list: Seq<Seq<char>>,
    outcomes: Seq<Option<Seq<Measure>>>,
) -> Seq<(Seq<char>, Seq<Measure>)>
    decreases list.len(),
{
    if list.len() == 0 {
        Seq::empty()
    } else {
        let before = embedded_texts(list.drop_last(), outcomes);
        match outcomes[list.len() - 1] {
            Some(v) if v.len() > 0 => before.push((list.last(), v)),
            _ => before,
        }
    }
}

/// What a list of optional embeddings says.
pub open spec fn outcome_views(v: Seq<Option<Vec<Measure>>>) -> Seq<Option<Seq<Measure>>> {
    v.map_values(
        |x: Option<Vec<Measure>>|
            match x {
                Some(w) => Some(w@),
                None => None,
            },
    )
}

fn copy_vector(v: &Vec<Measure>) -> (r: Vec<Measure>)
    ensures
        r@ == v@,
{
    let mut out: Vec<Measure> = Vec::new();
    let mut i: usize = 0;
    while i < v.len()
        invariant
            i <= v@.len(),
            out@ == v@.take(i as int),
        decreases v@.len() - i,
    {
        out.push(v[i]);
        assert(v@.take(i + 1) =~= v@.take(i as int).push(v@[i as int]));
        i += 1;
    }
    assert(v@.take(v@.len() as int) =~= v@);
    out
}

/// Texts with their embeddings, given what came of each; failures are passed over.
pub fn generate_embeddings_batch(
    list: &Vec<String>,
    outcomes: &Vec<Option<Vec<Measure>>>,
) -> (r: Vec<(String, Vec<Measure>)>)
    requires
        list@.len() == outcomes@.len(),
    ensures
        crate::store::vectors_of(r@) == embedded_texts(texts(list@), outcome_views(outcomes@)),
{
    let mut out: Vec<(String, Vec<Measure>)> = Vec::new();
    let ghost all = texts(list@);
    let ghost found = outcome_views(outcomes@);
    let mut i: usize = 0;
    assert(crate::store::vectors_of(out@) =~= Seq::empty());
    while i < list.len()
        invariant
            i <= list@.len(),
            list@.len() == outcomes@.len(),
            all == texts(list@),
            found == outcome_views(outcomes@),
            crate::store::vectors_of(out@) == embedded_texts(all.take(i as int), found),
        decreases list@.len() - i,
    {
        proof {
            assert(all.take(i + 1).drop_last() =~= all.take(i as int));
            assert(all.take(i + 1).last() == list@[i as int]@);
        }
        if let Some(v) = &outcomes[i] {
            if v.len() > 0 {
                let ghost before = out@;
                let pair = (list[i].clone(), copy_vector(v));
                out.push(pair);
                assert(crate::store::vectors_of(out@) =~= crate::store::vectors_of(before).push(
                    (pair.0@, pair.1@),
                ));
            }
        }
        i += 1;
    }
    proof {
        assert(all.take(all.len() as int) =~= all);
    }
    out
}

/// What to do before a text is embedded.
#[derive(Debug, Clone, Copy, PartialEq, Eq, Structural)]
pub enum LoadDecision {
    /// The model is there.
    Ready,
    /// A load failed a short while ago.
    Wait,
    /// Load the model.
    Load,
}

/// What to do before a text is embedded, given whether the model is there and how many whole
/// seconds ago a load failed, if one did.
pub fn ensure_loaded(loaded: bool, failed_ago: Option<u64>) -> (r: LoadDecision)
    ensures
        r == if loaded {
            LoadDecision::Ready
        } else if failed_ago is Some && failed_ago->0 < RETRY_BACKOFF {
            LoadDecision::Wait
        } else {
            LoadDecision::Load
        },
{
    if loaded {
        return LoadDecision::Ready;
    }
    match failed_ago {
        Some(secs) => if secs < RETRY_BACKOFF {
            LoadDecision::Wait
        } else {
            LoadDecision::Load
        },
        None => LoadDecision::Load,
    }
}

/// Whether the files of the model have to be downloaded: one of them is missing.
pub fn needs_download(config: bool, tokenizer: bool, weights: bool) -> (r: bool)
    ensures
        r == !(config && tokenizer && weights),
{
    !config || !tokenizer || !weights
}

/// How many of so many tokens the model takes.
pub fn clip_tokens(n: usize) -> (r: usize)
    ensures
        r == if n < MAX_LENGTH {
            n
        } else {
            MAX_LENGTH
        },
{
    if n < MAX_LENGTH {
        n
    } else {
        MAX_LENGTH
    }
}

/// A path with a name behind it. Nothing parts the two where the path is empty or ends with a
/// slash.
pub open spec fn below(path: Seq<char>, name: Seq<char>) -> Seq<char> {
    if path.len() == 0 || path.last() == '/' {
        path + name
    } else {
        path + "/"@ + name
    }
}

fn join_path(path: &str, name: &str) -> (r: String)
    ensures
        r@ == below(path@, name@),
{
    let chars = chars_of(path);
    if chars.len() == 0 || chars[chars.len() - 1] == '/' {
        concat(path, name)
    } else {
        concat3(path, "/", name)
    }
}

/// The directory of the model below a directory.
pub open spec fn model_dir_below(base: Seq<char>) -> Seq<char> {
    below(below(base, MODELS_DIR@), MODEL_FOLDER@)
}

/// The directory of the model: below the directory that was chosen, else below the home directory.
pub fn model_dir(chosen: &Option<String>, home: &Option<String>) -> (r: Result<String, String>)
    ensures
        match (opt_text(*chosen), opt_text(*home)) {
            (Some(base), _) => r matches Ok(dir) && dir@ == model_dir_below(base),
            (None, Some(base)) => r matches Ok(dir) && dir@ == model_dir_below(base),
            (None, None) => r matches Err(why) && why@
                == "Cannot determine home directory for model cache"@,
        },
{
    let base = match (chosen, home) {
        (Some(base), _) => base,
        (None, Some(base)) => base,
        (None, None) => {
            return Err("Cannot determine home directory for model cache".to_string());
        },
    };
    let models = join_path(base.as_str(), MODELS_DIR);
    Ok(join_path(models.as_str(), MODEL_FOLDER))
}

/// The home directory, from the variables that name it.
pub open spec fn home_of(
    home: Option<Seq<char>>,
    drive: Option<Seq<char>>,
    path: Option<Seq<char>>,
) -> Option<Seq<char>> {
    if home is Some {
        home
    } else if drive is Some && path is Some && drive->0.len() + path->0.len() > 0 {
        Some(drive->0 + path->0)
    } else {
        None
    }
}

/// The home directory, from the variables that name it.
pub fn dirs_fallback(
    home: &Option<String>,
    drive: &Option<String>,
    path: &Option<String>,
) -> (r: Option<String>)
    ensures
        opt_text(r) == home_of(opt_text(*home), opt_text(*drive), opt_text(*path)),
{
    if let Some(h) = home {
        return Some(h.clone());
    }
    if let (Some(d), Some(p)) = (drive, path) {
        let both = concat(d.as_str(), p.as_str());
        if !both.as_str().is_empty() {
            return Some(both);
        }
    }
    None
}

/// A batch gives every text with its vector that was embedded, in order, and no other; a vector
/// without numbers is none.
pub proof fn law_embedded_texts_are_kept(
    list: Seq<Seq<char>>,
    outcomes: Seq<Option<Seq<Measure>>>,
    k: int,
)
    requires
        list.len() == outcomes.len(),
        0 <= k < list.len(),
        outcomes[k] is Some,
        outcomes[k]->0.len() > 0,
    ensures
        embedded_texts(list, outcomes).contains((list[k], outcomes[k]->0)),
        (forall|i: int|
            0 <= i < outcomes.len() ==> (#[trigger] outcomes[i]) is Some && outcomes[i]->0.len()
                > 0) ==> embedded_texts(list, outcomes).len() == list.len(),
{
    lemma_embedded_texts(list, outcomes, k);
    if forall|i: int|
        0 <= i < outcomes.len() ==> (#[trigger] outcomes[i]) is Some && outcomes[i]->0.len() > 0 {
        lemma_all_embedded(list, outcomes);
    }
}

proof fn lemma_embedded_texts(
    list: Seq<Seq<char>>,
    outcomes: Seq<Option<Seq<Measure>>>,
    k: int,
)
    requires
        list.len() <= outcomes.len(),
        0 <= k < list.len(),
        outcomes[k] is Some,
        outcomes[k]->0.len() > 0,
    ensures
        embedded_texts(list, outcomes).contains((list[k], outcomes[k]->0)),
    decreases list.len(),
{
    let x = (list[k], outcomes[k]->0);
    let all = embedded_texts(list, outcomes);
    let before = embedded_texts(list.drop_last(), outcomes);
    if k < list.len() - 1 {
        lemma_embedded_texts(list.drop_last(), outcomes, k);
        let i = choose|i: int| 0 <= i < before.len() && before[i] == x;
        assert(all[i] == x);
    } else {
        assert(all[all.len() - 1] == x);
    }
}

proof fn lemma_all_embedded(list: Seq<Seq<char>>, outcomes: Seq<Option<Seq<Measure>>>)
    requires
        list.len() <= outcomes.len(),
        forall|i: int|
            0 <= i < outcomes.len() ==> (#[trigger] outcomes[i]) is Some && outcomes[i]->0.len()
                > 0,
    ensures
        embedded_texts(list, outcomes).len() == list.len(),
    decreases list.len(),
{
    if list.len() > 0 {
        lemma_all_embedded(list.drop_last(), outcomes);
        assert(outcomes[list.len() - 1] is Some);
    }
}

/// What a batch gives was embedded: each pair is a text of the list with its own vector.
pub proof fn law_batch_makes_nothing_up(
    list: Seq<Seq<char>>,
    outcomes: Seq<Option<Seq<Measure>>>,
    i: int,
) -> (k: int)
    requires
        list.len() <= outcomes.len(),
        0 <= i < embedded_texts(list, outcomes).len(),
    ensures
        0 <= k < list.len(),
        embedded_texts(list, outcomes)[i].0 == list[k],
        outcomes[k] == Some(embedded_texts(list, outcomes)[i].1),
        embedded_texts(list, outcomes)[i].1.len() > 0,
    decreases list.len(),
{
    let before = embedded_texts(list.drop_last(), outcomes);
    if i < before.len() {
        assert(embedded_texts(list, outcomes)[i] == before[i]);
        law_batch_makes_nothing_up(list.drop_last(), outcomes, i)
    } else {
        list.len() - 1
    }
}

/// The model is cached below the directory that is chosen for it, in a folder of its own, and it
/// is the one that the dimensions are of.
pub proof fn law_model_is_cached_below(base: Seq<char>)
    requires
        base.len() > 0,
        base.last() != '/',
    ensures
        model_dir_below(base) == base + "/"@ + ".engram/models"@ + "/"@ + "all-MiniLM-L6-v2"@,
        MODEL_ID@ == "sentence-transformers/all-MiniLM-L6-v2"@,
        MODEL_DIMENSIONS == 384,
        MAX_LENGTH == 256,
        RETRY_BACKOFF == 60,
{
    reveal_strlit(".engram/models");
    let p = base + "/"@ + MODELS_DIR@;
    assert(MODELS_DIR@.last() == 's');
    assert(p.last() == MODELS_DIR@.last());
}

/// A home directory that is set counts; else the drive and the path that are set together do.
pub proof fn law_home_directory_is(
    home: Option<Seq<char>>,
    drive: Option<Seq<char>>,
    path: Option<Seq<char>>,
)
    ensures
        home is Some ==> home_of(home, drive, path) == home,
        home is None && drive is Some && path is Some && (drive->0.len() > 0 || path->0.len() > 0)
            ==> home_of(home, drive, path) == Some(drive->0 + path->0),
        home is None && (drive is None || path is None) ==> home_of(home, drive, path) is None,
{
}

/// What is said of the outcomes of a batch is said of each of them, in their order.
pub proof fn law_outcomes_are_seen_as_they_are(v: Seq<Option<Vec<Measure>>>)
    ensures
        outcome_views(v).len() == v.len(),
        forall|i: int|
            0 <= i < v.len() ==> (#[trigger] outcome_views(v)[i] is Some <==> v[i] is Some),
        forall|i: int|
            0 <= i < v.len() && v[i] is Some ==> (#[trigger] outcome_views(v)[i])->0 == (
            v[i]->0)@,
{
}

} // verus!
