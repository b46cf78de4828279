//! The first-run setup as a dialogue: what is asked next, given what was answered.
use crate::scan;
use crate::scan::{trim, trim_end, Class};
use crate::text;
use vstd::prelude::*;
use vstd::string::*;

verus! {

broadcast use crate::text::group_views;

/// Where the setup stands.
#[derive(Debug)]
pub enum Setup {
    /// The provider and the key are to be asked for.
    Provider,
    /// The provider's models are to be listed.
    Checking { base_url: String, api_key: String },
    /// A model is to be chosen.
    Choosing { base_url: String, api_key: String, models: Vec<String> },
    /// The provider could not be reached; the user is to be asked whether to go on.
    Retrying,
    /// The choice is to be saved.
    Saving { base_url: String, api_key: String, model: String },
    /// The user gave up.
    Cancelled,
}

/// What a [`Setup`] stands for.
pub enum SetupModel {
    Provider,
    Checking { base_url: Seq<char>, api_key: Seq<char> },
    Choosing { base_url: Seq<char>, api_key: Seq<char>, models: Seq<Seq<char>> },
    Retrying,
    Saving { base_url: Seq<char>, api_key: Seq<char>, model: Seq<char> },
    Cancelled,
}

impl View for Setup {
    type V = SetupModel;

    open spec fn view(&self) -> SetupModel {
        match self {
            Setup::Provider => SetupModel::Provider,
            Setup::Checking { base_url, api_key } => SetupModel::Checking {
                base_url: base_url@,
                api_key: api_key@,
            },
            Setup::Choosing { base_url, api_key, models } => SetupModel::Choosing {
                base_url: base_url@,
                api_key: api_key@,
                models: text::views(models@),
            },
            Setup::Retrying => SetupModel::Retrying,
            Setup::Saving { base_url, api_key, model } => SetupModel::Saving {
                base_url: base_url@,
                api_key: api_key@,
                model: model@,
            },
            Setup::Cancelled => SetupModel::Cancelled,
        }
    }
}

/// What the user or the provider answered.
#[derive(Debug)]
pub enum Answer {
    Credentials { base_url: String, api_key: String },
    Models(Vec<String>),
    NoModels,
    Chosen(usize),
    Again(bool),
}

/// Where the setup stands after an answer. An answer to something that was not asked changes
/// nothing, nor does the choice of a model that is not listed.
pub open spec fn next(state: SetupModel, answer: Answer) -> SetupModel {
    match (state, answer) {
        (SetupModel::Provider, Answer::Credentials { base_url, api_key }) => SetupModel::Checking {
            base_url: scan::trim_back(base_url@, scan::one_of(seq!['/'])),
            api_key: scan::trimmed(api_key@),
        },
        (SetupModel::Checking { base_url, api_key }, Answer::Models(models)) => {
            SetupModel::Choosing { base_url, api_key, models: text::views(models@) }
        },
        (SetupModel::Checking { .. }, Answer::NoModels) => SetupModel::Retrying,
        (SetupModel::Choosing { base_url, api_key, models }, Answer::Chosen(i)) => if i
            < models.len() {
            SetupModel::Saving { base_url, api_key, model: models[i as int] }
        } else {
            state
        },
        (SetupModel::Retrying, Answer::Again(again)) => if again {
            SetupModel::Provider
        } else {
            SetupModel::Cancelled
        },
        _ => state,
    }
}

/// Where the setup stands after an answer.
pub fn advance(state: Setup, answer: Answer) -> (r: Setup)
    ensures
        r@ == next(state@, answer),
{
    match (state, answer) {
        (Setup::Provider, Answer::Credentials { base_url, api_key }) => {
            let ends: [char; 1] = ['/'];
            assert(ends@ =~= seq!['/']);
            Setup::Checking {
                base_url: trim_end(base_url.as_str(), &Class::Of(&ends)),
                api_key: trim(api_key.as_str()),
            }
        },
        (Setup::Checking { base_url, api_key }, Answer::Models(models)) => {
            Setup::Choosing { base_url, api_key, models }
        },
        (Setup::Checking { .. }, Answer::NoModels) => Setup::Retrying,
        (Setup::Choosing { base_url, api_key, models }, Answer::Chosen(i)) => {
            if i < models.len() {
                let model = models[i].clone();
                Setup::Saving { base_url, api_key, model }
            } else {
                Setup::Choosing { base_url, api_key, models }
            }
        },
        (Setup::Retrying, Answer::Again(again)) => {
            if again {
                Setup::Provider
            } else {
                Setup::Cancelled
            }
        },
        (other, _) => other,
    }
}

/// What is saved is what was answered: the base and the key that were given, and the very model that
/// was chosen among those that the provider named.
pub proof fn law_setup_saves_what_was_answered(
    base_url: String,
    api_key: String,
    models: Vec<String>,
    chosen: usize,
)
    requires
        base_url@.len() > 0,
        base_url@.last() != '/',
        api_key@.len() > 0,
        !text::is_white(api_key@[0]),
        !text::is_white(api_key@.last()),
    ensures
        ({
            let given = next(SetupModel::Provider, Answer::Credentials { base_url, api_key });
            let listed = next(given, Answer::Models(models));
            &&& given == (SetupModel::Checking { base_url: base_url@, api_key: api_key@ })
            &&& chosen < models@.len() ==> next(listed, Answer::Chosen(chosen)) == (
            SetupModel::Saving {
                base_url: base_url@,
                api_key: api_key@,
                model: models@[chosen as int]@,
            })
            &&& chosen >= models@.len() ==> next(listed, Answer::Chosen(chosen)) == listed
            &&& next(next(given, Answer::NoModels), Answer::Again(true)) is Provider
            &&& next(next(given, Answer::NoModels), Answer::Again(false)) is Cancelled
        }),
{
    let p = scan::one_of(seq!['/']);
    scan::lemma_trimmed_bare(api_key@);
    assert(!p(base_url@.last())) by {
        assert(seq!['/'][0] == '/');
        if seq!['/'].contains(base_url@.last()) {
            let k = seq!['/'].index_of(base_url@.last());
            assert(seq!['/'][k] == base_url@.last());
        }
    }
    assert(scan::span_back(base_url@, p) == 0);
    assert(scan::trim_back(base_url@, p) =~= base_url@);
}

} // verus!
