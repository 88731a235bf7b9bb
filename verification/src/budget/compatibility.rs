//! Tracking of the models whose way of calling tools cannot be used.
//!
//! Some models answer a request for a tool call in a format of their own.
//! The registry knows a few of them by the prefix of their id and learns
//! others when they fail.

use crate::budget::PricingInfo;
use crate::text::{chars_of, starts_with, starts_with_exec, strings_contain, view_strs};
use vstd::prelude::*;

verus! {

/// The format in which a model calls functions.
#[derive(Debug, Clone, Copy, PartialEq, Eq, Structural)]
pub enum ToolCallFormat {
    /// JSON function calling as OpenAI defines it.
    OpenAI,
    /// No function calling.
    NoCalls,
    /// A format of the model's own.
    Incompatible,
}

/// What is known of the function calling of a model.
#[derive(Debug, Clone, PartialEq, Eq)]
pub struct ModelCompatibility {
    pub supports_function_calling: bool,
    pub tool_call_format: ToolCallFormat,
    /// Known issues with the model.
    pub known_issues: Vec<String>,
    /// Whether the model has been tried.
    pub tested: bool,
}

/// The mathematical value of a compatibility record.
pub struct ModelCompatibilityView {
    pub supports_function_calling: bool,
    pub tool_call_format: ToolCallFormat,
    pub known_issues: Seq<Seq<char>>,
    pub tested: bool,
}

impl View for ModelCompatibility {
    type V = ModelCompatibilityView;

    open spec fn view(&self) -> ModelCompatibilityView {
        ModelCompatibilityView {
            supports_function_calling: self.supports_function_calling,
            tool_call_format: self.tool_call_format,
            known_issues: view_strs(self.known_issues@),
            tested: self.tested,
        }
    }
}

impl Default for ModelCompatibility {
    /// A model of which nothing is known counts as compatible, and untried.
    fn default() -> (r: Self)
        ensures
            r@ == (ModelCompatibilityView {
                supports_function_calling: true,
                tool_call_format: ToolCallFormat::OpenAI,
                known_issues: Seq::empty(),
                tested: false,
            }),
    {
        let r = ModelCompatibility {
            supports_function_calling: true,
            tool_call_format: ToolCallFormat::OpenAI,
            known_issues: Vec::new(),
            tested: false,
        };
        assert(r@.known_issues =~= Seq::empty());
        r
    }
}

impl ModelCompatibility {
    /// The record of a model that has been tried and works.
    pub fn compatible() -> (r: Self)
        ensures
            r@ == (ModelCompatibilityView {
                supports_function_calling: true,
                tool_call_format: ToolCallFormat::OpenAI,
                known_issues: Seq::empty(),
                tested: true,
            }),
    {
        let r = ModelCompatibility {
            supports_function_calling: true,
            tool_call_format: ToolCallFormat::OpenAI,
            known_issues: Vec::new(),
            tested: true,
        };
        assert(r@.known_issues =~= Seq::empty());
        r
    }

    /// The record of a model that has been tried and cannot be used, with
    /// the reason as its one known issue.
    pub fn incompatible(reason: &str) -> (r: Self)
        ensures
            r@ == (ModelCompatibilityView {
                supports_function_calling: false,
                tool_call_format: ToolCallFormat::Incompatible,
                known_issues: seq![reason@],
                tested: true,
            }),
    {
        let mut issues: Vec<String> = Vec::new();
        issues.push(reason.to_owned());
        let r = ModelCompatibility {
            supports_function_calling: false,
            tool_call_format: ToolCallFormat::Incompatible,
            known_issues: issues,
            tested: true,
        };
        assert(r@.known_issues =~= seq![reason@]);
        r
    }

    /// Whether the model can be asked to call functions: it supports them,
    /// in the standard format.
    pub fn can_use_functions(&self) -> (r: bool)
        ensures
            r == (self.supports_function_calling && self.tool_call_format
                == ToolCallFormat::OpenAI),
    {
        self.supports_function_calling && self.tool_call_format == ToolCallFormat::OpenAI
    }
}

/// The models that cannot be used: those whose id begins with a known
/// prefix, and those that have failed while the server ran.
pub struct CompatibilityRegistry {
    incompatible_prefixes: Vec<String>,
    runtime_failures: Vec<String>,
}

/// The prefix of the ids of the models known from the start to use a format
/// of their own.
pub open spec fn known_bad_prefix() -> Seq<char> {
    "deepseek/deepseek-r1-distill"@
}

/// The reason given for a model that the registry holds to be incompatible.
pub open spec fn standard_reason() -> Seq<char> {
    "Known to use non-standard tool calling format"@
}

impl CompatibilityRegistry {
    /// The prefixes of incompatible model ids.
    pub closed spec fn prefixes(&self) -> Seq<Seq<char>> {
        view_strs(self.incompatible_prefixes@)
    }

    /// The ids of the models that have failed.
    pub closed spec fn failures(&self) -> Set<Seq<char>> {
        view_strs(self.runtime_failures@).to_set()
    }

    /// A model is incompatible where it has failed or its id begins with one
    /// of the prefixes.
    pub open spec fn incompatible(&self, model_id: Seq<char>) -> bool {
        self.failures().contains(model_id) || exists|i: int|
            0 <= i < self.prefixes().len() && starts_with(model_id, #[trigger] self.prefixes()[i])
    }

    /// A registry with the models known from the start.
    pub fn new() -> (r: Self)
        ensures
            r.prefixes() == seq![known_bad_prefix()],
            r.failures() == Set::<Seq<char>>::empty(),
    {
        let mut prefixes: Vec<String> = Vec::new();
        prefixes.push("deepseek/deepseek-r1-distill".to_owned());
        let r = CompatibilityRegistry {
            incompatible_prefixes: prefixes,
            runtime_failures: Vec::new(),
        };
        assert(r.prefixes() =~= seq![known_bad_prefix()]);
        assert(r.failures() =~= Set::<Seq<char>>::empty());
        r
    }

    /// Whether a model is known to be incompatible.
    pub fn is_incompatible(&self, model_id: &str) -> (r: bool)
        ensures
            r == self.incompatible(model_id@),
    {
        if strings_contain(&self.runtime_failures, model_id) {
            return true;
        }
        let id = chars_of(model_id);
        let mut i: usize = 0;
        while i < self.incompatible_prefixes.len()
            invariant
                i <= self.incompatible_prefixes@.len(),
                id@ == model_id@,
                !self.failures().contains(model_id@),
                forall|j: int|
                    0 <= j < i ==> !starts_with(model_id@, #[trigger] self.prefixes()[j]),
            decreases self.incompatible_prefixes@.len() - i,
        {
            let p = chars_of(self.incompatible_prefixes[i].as_str());
            assert(p@ == self.prefixes()[i as int]);
            if starts_with_exec(&id, &p) {
                return true;
            }
            i = i + 1;
        }
        false
    }

    /// Records that a model has failed for its way of calling tools. From
    /// then on it is incompatible.
    pub fn mark_incompatible(&mut self, model_id: &str, reason: &str)
        ensures
            final(self).failures() == old(self).failures().insert(model_id@),
            final(self).prefixes() == old(self).prefixes(),
    {
        if !strings_contain(&self.runtime_failures, model_id) {
            let ghost before = view_strs(self.runtime_failures@);
            self.runtime_failures.push(model_id.to_owned());
            assert(view_strs(self.runtime_failures@) =~= before.push(model_id@));
            assert(before.push(model_id@).to_set() =~= before.to_set().insert(model_id@)) by {
                assert forall|s: Seq<char>| #[trigger]
                    before.push(model_id@).to_set().contains(s) <==> before.to_set().insert(
                        model_id@,
                    ).contains(s) by {
                    if before.push(model_id@).contains(s) {
                        let k = choose|k: int|
                            0 <= k < before.push(model_id@).len() && before.push(model_id@)[k]
                                == s;
                        if k < before.len() {
                            assert(before[k] == s);
                        }
                    }
                    if before.contains(s) {
                        let k = choose|k: int| 0 <= k < before.len() && before[k] == s;
                        assert(before.push(model_id@)[k] == s);
                    }
                    if s == model_id@ {
                        assert(before.push(model_id@)[before.len() as int] == s);
                    }
                }
            }
        } else {
            assert(self.failures().insert(model_id@) =~= self.failures());
        }
    }

    /// What is known of a model: the record of an incompatible model with
    /// the standard reason where the registry holds it to be one, and else
    /// the record of a model of which nothing is known.
    pub fn get(&self, model_id: &str) -> (r: ModelCompatibility)
        ensures
            self.incompatible(model_id@) ==> r@ == (ModelCompatibilityView {
                supports_function_calling: false,
                tool_call_format: ToolCallFormat::Incompatible,
                known_issues: seq![standard_reason()],
                tested: true,
            }),
            !self.incompatible(model_id@) ==> r@ == (ModelCompatibilityView {
                supports_function_calling: true,
                tool_call_format: ToolCallFormat::OpenAI,
                known_issues: Seq::empty(),
                tested: false,
            }),
    {
        if self.is_incompatible(model_id) {
            ModelCompatibility::incompatible("Known to use non-standard tool calling format")
        } else {
            ModelCompatibility::default()
        }
    }

    /// The models of a list that are not incompatible, in order.
    pub open spec fn compatible_of(&self, models: Seq<PricingInfo>) -> Seq<PricingInfo>
        decreases models.len(),
    {
        if models.len() == 0 {
            models
        } else if self.incompatible(models.last().model_id@) {
            self.compatible_of(models.drop_last())
        } else {
            self.compatible_of(models.drop_last()).push(models.last())
        }
    }

    /// Keeps the models that can be used.
    pub fn filter_compatible<'a>(&self, models: &'a Vec<PricingInfo>) -> (r: Vec<&'a PricingInfo>)
        ensures
            r@.len() == self.compatible_of(models@).len(),
            forall|i: int| 0 <= i < r@.len() ==> *r@[i] == self.compatible_of(models@)[i],
    {
        let mut out: Vec<&'a PricingInfo> = Vec::new();
        let mut i: usize = 0;
        assert(models@.take(0) =~= Seq::empty());
        while i < models.len()
            invariant
                i <= models.len(),
                out@.len() == self.compatible_of(models@.take(i as int)).len(),
                forall|j: int|
                    0 <= j < out@.len() ==> *out@[j] == self.compatible_of(
                        models@.take(i as int),
                    )[j],
            decreases models.len() - i,
        {
            assert(models@.take(i + 1).drop_last() == models@.take(i as int));
            assert(models@.take(i + 1).last() == models@[i as int]);
            if !self.is_incompatible(models[i].model_id.as_str()) {
                out.push(&models[i]);
            }
            i = i + 1;
        }
        assert(models@.take(models@.len() as int) == models@);
        out
    }
}

impl Default for CompatibilityRegistry {
    fn default() -> (r: Self)
        ensures
            r.prefixes() == seq![known_bad_prefix()],
            r.failures() == Set::<Seq<char>>::empty(),
    {
        CompatibilityRegistry::new()
    }
}

} // verus!
