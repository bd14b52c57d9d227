use vstd::prelude::*;

use crate::config::{option_views, Config, SecretValue, SecretValueView};
use crate::select::{
    belongs_to, export_line, export_text, on_line, prompt_outcome, status_line, status_text,
    values_for, Prompt,
};

verus! {

/// Why a run ends without a value to set.
#[derive(PartialEq, Eq, Structural, Clone, Copy, Debug)]
pub enum RunError {
    /// The configuration lists no secret.
    NoSecretsAvailable,
    /// No value option belongs to the chosen secret.
    NoValuesAvailable,
    /// The input ended before a choice was made.
    EndOfInput,
}

impl RunError {
    /// A description of the error for the user.
    pub fn message(&self) -> (r: String)
        ensures
            r@ == match self {
                RunError::NoSecretsAvailable => "no secrets available"@,
                RunError::NoValuesAvailable => "no values available for the chosen secret"@,
                RunError::EndOfInput => "input ended before a choice was made"@,
            },
    {
        match self {
            RunError::NoSecretsAvailable => String::from_str("no secrets available"),
            RunError::NoValuesAvailable => String::from_str(
                "no values available for the chosen secret",
            ),
            RunError::EndOfInput => String::from_str("input ended before a choice was made"),
        }
    }
}

/// Where a run stands.
pub enum Stage {
    /// The user chooses a secret by its index in the configuration.
    ChooseSecret,
    /// The user chooses one of `candidates`, the value options of the
    /// secret at index `secret`.
    ChooseValue { secret: usize, candidates: Vec<SecretValue> },
    /// The choice is made: `export` is the line for the shell, `status` the
    /// line for the user.
    Finished { export: String, status: String },
}

/// What a line did that did not end the run.
#[derive(PartialEq, Eq, Structural, Clone, Copy, Debug)]
pub enum Answer {
    /// The line chose nothing; the same prompt comes again.
    Retry,
    /// The line made a choice and the run moved on.
    Advanced,
}

/// One run of the picker over a configuration.
pub struct Session {
    pub config: Config,
    pub stage: Stage,
}

/// The value options of the secret at index `k` of the configuration.
pub open spec fn candidates_of(config: Config, k: int) -> Seq<SecretValueView> {
    option_views(config.values@).filter(belongs_to(config.secrets@[k]@))
}

impl Session {
    /// The stage is consistent with the configuration.
    pub open spec fn wf(&self) -> bool {
        &&& self.config.secrets@.len() > 0
        &&& match self.stage {
            Stage::ChooseSecret => true,
            Stage::ChooseValue { secret, candidates } => {
                &&& secret < self.config.secrets@.len()
                &&& candidates@.len() > 0
                &&& option_views(candidates@) == candidates_of(self.config, secret as int)
            },
            Stage::Finished { .. } => true,
        }
    }

    /// The lines that the current prompt lists, one per entry.
    pub open spec fn menu_spec(&self) -> Seq<Seq<char>> {
        match self.stage {
            Stage::ChooseSecret => self.config.secrets.deep_view(),
            Stage::ChooseValue { candidates, .. } => option_views(candidates@).map_values(
                |o: SecretValueView| o.name,
            ),
            Stage::Finished { .. } => Seq::empty(),
        }
    }

    /// Starts a run; fails where the configuration lists no secret.
    pub fn start(config: Config) -> (r: Result<Session, RunError>)
        ensures
            config.secrets@.len() == 0 <==> r == Err::<Session, RunError>(
                RunError::NoSecretsAvailable,
            ),
            r matches Ok(s) ==> s.wf() && s.config == config && s.stage is ChooseSecret,
    {
        if config.secrets.len() == 0 {
            Err(RunError::NoSecretsAvailable)
        } else {
            Ok(Session { config, stage: Stage::ChooseSecret })
        }
    }

    /// Whether the choice is made.
    pub fn is_finished(&self) -> (r: bool)
        ensures
            r == self.stage is Finished,
    {
        match self.stage {
            Stage::Finished { .. } => true,
            _ => false,
        }
    }

    /// The entries of the current prompt: the secret names, or the labels of
    /// the chosen secret's value options.
    pub fn menu(&self) -> (r: Vec<String>)
        ensures
            r.deep_view() == self.menu_spec(),
    {
        match &self.stage {
            Stage::ChooseSecret => {
                let mut out: Vec<String> = Vec::new();
                let mut k: usize = 0;
                while k < self.config.secrets.len()
                    invariant
                        k <= self.config.secrets@.len(),
                        out.deep_view() == self.config.secrets.deep_view().take(k as int),
                    decreases self.config.secrets@.len() - k,
                {
                    let ghost before = out.deep_view();
                    out.push(self.config.secrets[k].clone());
                    assert(out.deep_view() =~= before.push(self.config.secrets@[k as int]@));
                    assert(self.config.secrets.deep_view().take(k + 1)
                        =~= self.config.secrets.deep_view().take(k as int).push(
                        self.config.secrets@[k as int]@,
                    ));
                    k = k + 1;
                }
                assert(self.config.secrets.deep_view().take(k as int)
                    =~= self.config.secrets.deep_view());
                out
            },
            Stage::ChooseValue { candidates, .. } => {
                let ghost labels = option_views(candidates@).map_values(
                    |o: SecretValueView| o.name,
                );
                let mut out: Vec<String> = Vec::new();
                let mut k: usize = 0;
                while k < candidates.len()
                    invariant
                        k <= candidates@.len(),
                        labels == option_views(candidates@).map_values(
                            |o: SecretValueView| o.name,
                        ),
                        out.deep_view() == labels.take(k as int),
                    decreases candidates@.len() - k,
                {
                    let ghost before = out.deep_view();
                    out.push(candidates[k].name.clone());
                    assert(labels[k as int] == candidates@[k as int].name@);
                    assert(out.deep_view() =~= before.push(candidates@[k as int].name@));
                    assert(labels.take(k + 1) =~= labels.take(k as int).push(labels[k as int]));
                    k = k + 1;
                }
                assert(labels.take(k as int) =~= labels);
                out
            },
            Stage::Finished { .. } => Vec::new(),
        }
    }

    /// The number of entries of the current prompt.
    pub fn menu_len(&self) -> (r: usize)
        ensures
            r == self.menu_spec().len(),
    {
        match &self.stage {
            Stage::ChooseSecret => self.config.secrets.len(),
            Stage::ChooseValue { candidates, .. } => candidates.len(),
            Stage::Finished { .. } => 0,
        }
    }

    /// Takes the line typed at the current prompt, or `None` where the input
    /// ended. A line that chooses nothing leaves the run as it was. Choosing
    /// a secret moves on to its value options, unless it has none; choosing
    /// a value option finishes the run with its export and status lines.
    pub fn answer(&mut self, line: Option<&str>) -> (r: Result<Answer, RunError>)
        requires
            old(self).wf(),
            !(old(self).stage is Finished),
        ensures
            final(self).wf(),
            final(self).config == old(self).config,
            ({
                let outcome = prompt_outcome(
                    match line {
                        Some(s) => Some(s@),
                        None => None,
                    },
                    old(self).menu_spec().len(),
                );
                match outcome {
                    Prompt::EndOfInput => r == Err::<Answer, RunError>(RunError::EndOfInput)
                        && final(self).stage == old(self).stage,
                    Prompt::Retry => r == Ok::<Answer, RunError>(Answer::Retry)
                        && final(self).stage == old(self).stage,
                    Prompt::Accepted(k) => match old(self).stage {
                        Stage::ChooseSecret => if candidates_of(old(self).config, k as int).len()
                            == 0 {
                            r == Err::<Answer, RunError>(RunError::NoValuesAvailable)
                                && final(self).stage == old(self).stage
                        } else {
                            &&& r == Ok::<Answer, RunError>(Answer::Advanced)
                            &&& (final(self).stage matches Stage::ChooseValue { secret, .. }
                                && secret == k)
                        },
                        Stage::ChooseValue { secret, candidates } => {
                            let name = old(self).config.secrets@[secret as int]@;
                            &&& r == Ok::<Answer, RunError>(Answer::Advanced)
                            &&& final(self).stage matches Stage::Finished { export, status }
                            &&& export@ == export_text(name, candidates@[k as int].value@)
                            &&& status@ == status_text(candidates@[k as int].name@, name)
                        },
                        _ => false,
                    },
                }
            }),
    {
        let len = self.menu_len();
        match on_line(line, len) {
            Prompt::EndOfInput => Err(RunError::EndOfInput),
            Prompt::Retry => Ok(Answer::Retry),
            Prompt::Accepted(k) => {
                let next = match &self.stage {
                    Stage::ChooseSecret => {
                        let candidates = values_for(
                            &self.config.values,
                            self.config.secrets[k].as_str(),
                        );
                        if candidates.len() == 0 {
                            return Err(RunError::NoValuesAvailable);
                        }
                        Stage::ChooseValue { secret: k, candidates }
                    },
                    Stage::ChooseValue { secret, candidates } => {
                        let name = self.config.secrets[*secret].as_str();
                        let chosen = &candidates[k];
                        Stage::Finished {
                            export: export_line(name, chosen.value.as_str()),
                            status: status_line(chosen.name.as_str(), name),
                        }
                    },
                    Stage::Finished { .. } => {
                        return Err(RunError::EndOfInput);
                    },
                };
                self.stage = next;
                Ok(Answer::Advanced)
            },
        }
    }
}

} // verus!
