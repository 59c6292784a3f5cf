//! Error categories shared across the crate.
use vstd::prelude::*;

verus! {

/// Error categories for classification.
#[derive(Debug, Clone, Copy, PartialEq, Eq, Hash, Structural)]
pub enum ErrorCategory {
    /// Network-related errors
    Network,
    /// Data parsing errors
    Parsing,
    /// Storage/database errors
    Storage,
    /// LLM-related errors
    Llm,
    /// Configuration errors
    Config,
    /// Scheduler errors
    Scheduler,
    /// Other errors
    Other,
}

impl ErrorCategory {
    /// The Korean description of a category.
    pub open spec fn spec_korean_desc(self) -> Seq<char> {
        match self {
            ErrorCategory::Network => "네트워크 오류"@,
            ErrorCategory::Parsing => "파싱 오류"@,
            ErrorCategory::Storage => "저장소 오류"@,
            ErrorCategory::Llm => "LLM 오류"@,
            ErrorCategory::Config => "설정 오류"@,
            ErrorCategory::Scheduler => "스케줄러 오류"@,
            ErrorCategory::Other => "기타 오류"@,
        }
    }

    /// The message key under which the category's description is
    /// translated.
    pub open spec fn spec_message_key(self) -> Seq<char> {
        match self {
            ErrorCategory::Network => "errors.category.network"@,
            ErrorCategory::Parsing => "errors.category.parsing"@,
            ErrorCategory::Storage => "errors.category.storage"@,
            ErrorCategory::Llm => "errors.category.llm"@,
            ErrorCategory::Config => "errors.category.config"@,
            ErrorCategory::Scheduler => "errors.category.scheduler"@,
            ErrorCategory::Other => "errors.category.other"@,
        }
    }

    /// Get Korean description.
    pub fn korean_desc(&self) -> (r: &'static str)
        ensures
            r@ == self.spec_korean_desc(),
    {
        match self {
            ErrorCategory::Network => "네트워크 오류",
            ErrorCategory::Parsing => "파싱 오류",
            ErrorCategory::Storage => "저장소 오류",
            ErrorCategory::Llm => "LLM 오류",
            ErrorCategory::Config => "설정 오류",
            ErrorCategory::Scheduler => "스케줄러 오류",
            ErrorCategory::Other => "기타 오류",
        }
    }

    /// The translation key of the category's localized description.
    pub fn message_key(&self) -> (r: &'static str)
        ensures
            r@ == self.spec_message_key(),
    {
        match self {
            ErrorCategory::Network => "errors.category.network",
            ErrorCategory::Parsing => "errors.category.parsing",
            ErrorCategory::Storage => "errors.category.storage",
            ErrorCategory::Llm => "errors.category.llm",
            ErrorCategory::Config => "errors.category.config",
            ErrorCategory::Scheduler => "errors.category.scheduler",
            ErrorCategory::Other => "errors.category.other",
        }
    }
}

} // verus!
