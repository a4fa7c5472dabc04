//! A template engine for message localization: compact interpolation
//! templates — literal text mixed with `{parameter}`, `{param, plural, …}`,
//! `{param, select, …}` and `{param, number, …}` constructs — are parsed
//! into a message tree and rendered against a set of named runtime values.
//!
//! The parser and the formatter are verified against spec-level models of
//! the grammar and of evaluation; only the locale-aware number and currency
//! renderings of the icu crates are taken on trust, behind named results.

pub mod text;
pub mod types;
pub mod parser;
pub mod decimal;
pub mod numfmt;
pub mod formatter;
pub mod laws;

pub use formatter::FormatError;
pub use formatter::format_message;
pub use formatter::select_case;
pub use formatter::select_plural_case;
pub use formatter::substitute_hash_placeholder;
pub use parser::ParseError;
pub use parser::parse_message;
pub use types::AsParameterValue;
pub use types::Message;
pub use types::MessageElement;
pub use types::NumberExpression;
pub use types::NumberFormatType;
pub use types::ParameterValue;
pub use types::Parameters;
pub use types::PluralCase;
pub use types::PluralExpression;
pub use types::PluralSelector;
pub use types::SelectCase;
pub use types::SelectExpression;

use vstd::prelude::*;
use crate::formatter::EvalOutcome;
use crate::formatter::eval_elements;
use crate::parser::parse_message_spec;
use crate::parser::sp_elements;

verus! {

/// A failure of the combined parse-then-format pipeline.
#[derive(Debug)]
pub enum MessageFormatError {
    ParseError(ParseError),
    FormatError(FormatError),
}

/// Parses `message_str` and formats it against `parameters` under the
/// default locale tag `en`. The first failure at either stage is returned;
/// no partial output ever is.
pub fn format<'a>(message_str: &str, parameters: Parameters<'a>) -> (r: Result<
    String,
    MessageFormatError,
>)
    ensures
        ({
            match parse_message_spec(message_str@) {
                None => r matches Err(MessageFormatError::ParseError(pe)) && pe.position as int
                    == sp_elements(message_str@, 0).0,
                Some(es) => {
                    let o = eval_elements(es, parameters@, "en"@);
                    match r {
                        Ok(s) => o == EvalOutcome::Rendered(s@),
                        Err(MessageFormatError::FormatError(FormatError::MissingParameter(p))) => o
                            == EvalOutcome::MissingParameter(p@),
                        Err(
                            MessageFormatError::FormatError(FormatError::InvalidParameterType(p)),
                        ) => o == EvalOutcome::InvalidParameterType(p@),
                        Err(MessageFormatError::ParseError(_)) => false,
                    }
                },
            }
        }),
{
    let message = match parse_message(message_str) {
        Ok(m) => m,
        Err(e) => {
            return Err(MessageFormatError::ParseError(e));
        },
    };
    match format_message(&message, parameters, "en") {
        Ok(s) => Ok(s),
        Err(e) => Err(MessageFormatError::FormatError(e)),
    }
}

} // verus!
