//! The stored API tokens, one for each space, and the choice of the token to
//! work with. A configuration is a value: storing a token gives a new one.

use vstd::prelude::*;
use crate::seqs::{
    is_first_at, lemma_position, lemma_position_absent, lemma_position_found, position,
};
use crate::text::str_eq;

verus! {

/// What is stored for one space.
#[derive(Clone, Debug, PartialEq, Eq)]
pub struct SpaceConfig {
    pub api_token: String,
}

/// The stored configuration: the spaces by their identifiers, each at most once.
#[derive(Debug, PartialEq, Eq)]
pub struct Config {
    space_configs: Vec<(String, SpaceConfig)>,
}

/// The mathematical value of a [`Config`].
pub struct ConfigView {
    /// The identifiers of the spaces, in stored order.
    pub spaces: Seq<Seq<char>>,
    /// The token of each space, position by position.
    pub tokens: Seq<Seq<char>>,
}

impl ConfigView {
    /// The token stored for a space.
    pub open spec fn token(self, space_id: Seq<char>) -> Option<Seq<char>> {
        match position(self.spaces, space_id) {
            Some(i) => Some(self.tokens[i]),
            None => None,
        }
    }

    /// The configuration with `token` stored for `space_id`: in place where
    /// the space is known, at the end where it is new.
    pub open spec fn with_token(self, space_id: Seq<char>, token: Seq<char>) -> ConfigView {
        match position(self.spaces, space_id) {
            Some(i) => ConfigView { spaces: self.spaces, tokens: self.tokens.update(i, token) },
            None => ConfigView {
                spaces: self.spaces.push(space_id),
                tokens: self.tokens.push(token),
            },
        }
    }
}

impl View for Config {
    type V = ConfigView;

    closed spec fn view(&self) -> ConfigView {
        ConfigView {
            spaces: Seq::new(self.space_configs@.len(), |i: int| self.space_configs@[i].0@),
            tokens: Seq::new(
                self.space_configs@.len(),
                |i: int| self.space_configs@[i].1.api_token@,
            ),
        }
    }
}

impl Config {
    /// Every space is stored once, with one token.
    pub open spec fn well_formed(&self) -> bool {
        &&& self@.spaces.len() == self@.tokens.len()
        &&& self@.spaces.no_duplicates()
    }

    /// A configuration without spaces.
    pub fn new() -> (config: Config)
        ensures
            config.well_formed(),
            config@.spaces.len() == 0,
    {
        Config { space_configs: Vec::new() }
    }

    /// The number of spaces.
    pub fn len(&self) -> (n: usize)
        ensures
            n == self@.spaces.len(),
    {
        self.space_configs.len()
    }

    /// The identifier and the token of the space at a position.
    pub fn space_at(&self, i: usize) -> (space: Option<(&String, &String)>)
        ensures
            match space {
                Some(found) => i < self@.spaces.len() && found.0@ == self@.spaces[i as int]
                    && found.1@ == self@.tokens[i as int],
                None => i >= self@.spaces.len(),
            },
    {
        if i < self.space_configs.len() {
            Some((&self.space_configs[i].0, &self.space_configs[i].1.api_token))
        } else {
            None
        }
    }

    fn index_of(&self, space_id: &str) -> (found: Option<usize>)
        ensures
            match found {
                Some(i) => position(self@.spaces, space_id@) == Some(i as int) && i
                    < self.space_configs.len(),
                None => position(self@.spaces, space_id@) is None,
            },
    {
        let mut i: usize = 0;
        while i < self.space_configs.len()
            invariant
                i <= self.space_configs.len(),
                forall|j: int| 0 <= j < i ==> self@.spaces[j] != space_id@,
            decreases self.space_configs.len() - i,
        {
            if str_eq(self.space_configs[i].0.as_str(), space_id) {
                proof {
                    assert(is_first_at(self@.spaces, space_id@, i as int));
                    lemma_position_found(self@.spaces, space_id@, i as int);
                }
                return Some(i);
            }
            i += 1;
        }
        proof {
            lemma_position_absent(self@.spaces, space_id@);
        }
        None
    }

    /// The token stored for a space.
    pub fn token(&self, space_id: &str) -> (token: Option<&String>)
        ensures
            token.deep_view() == self@.token(space_id@),
    {
        match self.index_of(space_id) {
            Some(i) => Some(&self.space_configs[i].1.api_token),
            None => None,
        }
    }

    /// Stores a token for a space and gives the new configuration. The other
    /// spaces keep their tokens and their order.
    pub fn with_token(self, space_id: String, token: String) -> (config: Config)
        ensures
            self.well_formed() ==> config.well_formed(),
            config@ == self@.with_token(space_id@, token@),
            config@.token(space_id@) == Some(token@),
    {
        let ghost before = self@;
        let found = self.index_of(space_id.as_str());
        let mut stored = self.space_configs;
        match found {
            Some(i) => {
                stored.set(i, (space_id, SpaceConfig { api_token: token }));
                let config = Config { space_configs: stored };
                proof {
                    lemma_position(before.spaces, space_id@);
                    assert(config@.spaces =~= before.spaces);
                    assert(config@.tokens =~= before.tokens.update(i as int, token@));
                }
                config
            },
            None => {
                stored.push((space_id, SpaceConfig { api_token: token }));
                let config = Config { space_configs: stored };
                proof {
                    lemma_position(before.spaces, space_id@);
                    assert(config@.spaces =~= before.spaces.push(space_id@));
                    assert(config@.tokens =~= before.tokens.push(token@));
                    let at = before.spaces.len() as int;
                    assert(is_first_at(config@.spaces, space_id@, at));
                    lemma_position_found(config@.spaces, space_id@, at);
                }
                config
            },
        }
    }
}

/// What to do next to settle on a token.
#[derive(Debug, PartialEq, Eq)]
pub enum TokenStep {
    /// Ask whether the stored token is to be used.
    AskToReuse,
    /// Ask for a new token.
    PromptForToken,
    /// Work with this token.
    Use(String),
}

/// The mathematical value of a [`TokenStep`].
pub enum TokenStepView {
    AskToReuse,
    PromptForToken,
    Use(Seq<char>),
}

impl View for TokenStep {
    type V = TokenStepView;

    open spec fn view(&self) -> TokenStepView {
        match self {
            TokenStep::AskToReuse => TokenStepView::AskToReuse,
            TokenStep::PromptForToken => TokenStepView::PromptForToken,
            TokenStep::Use(token) => TokenStepView::Use(token@),
        }
    }
}

/// The next step, from the stored token and the answer to the question of
/// reuse, where it has been asked: without a stored token, or with an empty
/// one, a new token is asked for; a stored token is used once its reuse is
/// confirmed, and replaced by a new one once it is declined.
pub open spec fn next_step(stored: Option<Seq<char>>, answer: Option<bool>) -> TokenStepView {
    match stored {
        None => TokenStepView::PromptForToken,
        Some(token) => if token.len() == 0 {
            TokenStepView::PromptForToken
        } else {
            match answer {
                None => TokenStepView::AskToReuse,
                Some(true) => TokenStepView::Use(token),
                Some(false) => TokenStepView::PromptForToken,
            }
        },
    }
}

/// Decides the next step to settle on a token.
pub fn token_step(stored: Option<&String>, answer: Option<bool>) -> (step: TokenStep)
    ensures
        step@ == next_step(stored.deep_view(), answer),
{
    match stored {
        None => TokenStep::PromptForToken,
        Some(token) => {
            if token.as_str().unicode_len() == 0 {
                TokenStep::PromptForToken
            } else {
                match answer {
                    None => TokenStep::AskToReuse,
                    Some(true) => TokenStep::Use(token.clone()),
                    Some(false) => TokenStep::PromptForToken,
                }
            }
        },
    }
}

} // verus!
