//! What is asked of a text-generating model to have a method documented.

use vstd::prelude::*;
use vstd::string::StringExecFns;

verus! {

/// What stands in a detailed request before the language.
pub open spec fn detailed_opening() -> Seq<char> {
    "Understand what this method does and \n            add a detailed doc comment explaining that to the following "@
}

/// What stands in a request between the language and the code.
pub open spec fn before_code() -> Seq<char> {
    " method:\n            "@
}

/// What stands in a detailed request behind the code.
pub open spec fn detailed_closing() -> Seq<char> {
    "\n            The doc comment should describe what the method does. Return the doc comment as a code comment above the method implementaion and include both the doc comment and method in your response\n            as a go code comment. Don't include any explanations or anything other than the required doc comments in your response.\n            "@
}

/// What stands in a short request before the language.
pub open spec fn short_opening() -> Seq<char> {
    "Add a detailed doc comment to the following "@
}

/// What stands in a short request behind the code.
pub open spec fn short_closing() -> Seq<char> {
    "\n            The doc comment should describe what the method does. \n            Return the method implementaion with the doc comment above the method\n            as a code comment. Don't include any explanations in your response."@
}

/// The detailed request to document the method `code`, written in
/// `language`.
pub open spec fn detailed_prompt(language: Seq<char>, code: Seq<char>) -> Seq<char> {
    detailed_opening() + language + before_code() + code + detailed_closing()
}

/// The short request to document the method `code`, written in `language`.
pub open spec fn short_prompt(language: Seq<char>, code: Seq<char>) -> Seq<char> {
    short_opening() + language + before_code() + code + short_closing()
}

/// What is reported when the model gave no answer, for the reason `cause`.
pub open spec fn failure_text(cause: Seq<char>) -> Seq<char> {
    "Error generating response: "@ + cause
}

/// The view of the outcome of a request.
pub open spec fn outcome_view(outcome: Result<String, String>) -> Result<Seq<char>, Seq<char>> {
    match outcome {
        Ok(text) => Ok(text@),
        Err(text) => Err(text@),
    }
}

/// The client of a text-generating model, without the connection: it
/// writes the request and reads the outcome.
pub struct LLMClient {
    model: String,
}

impl LLMClient {
    /// The name of the model that requests go to.
    pub closed spec fn spec_model(&self) -> Seq<char> {
        self.model@
    }

    /// A client of the model `codellama`.
    pub fn new() -> (client: Self)
        ensures
            client.spec_model() == "codellama"@,
    {
        LLMClient { model: "codellama".to_owned() }
    }

    /// The name of the model that requests go to.
    pub fn model(&self) -> (name: &str)
        ensures
            name@ == self.spec_model(),
    {
        self.model.as_str()
    }

    /// The detailed request to document the method `code`, written in
    /// `language`.
    pub fn prompt(&self, language: &str, code: &str) -> (text: String)
        ensures
            text@ == detailed_prompt(language@, code@),
    {
        let mut text = "Understand what this method does and \n            add a detailed doc comment explaining that to the following ".to_owned();
        text.append(language);
        text.append(" method:\n            ");
        text.append(code);
        text.append(
            "\n            The doc comment should describe what the method does. Return the doc comment as a code comment above the method implementaion and include both the doc comment and method in your response\n            as a go code comment. Don't include any explanations or anything other than the required doc comments in your response.\n            ",
        );
        text
    }

    /// The short request to document the method `code`, written in
    /// `language`.
    pub fn brief_prompt(&self, language: &str, code: &str) -> (text: String)
        ensures
            text@ == short_prompt(language@, code@),
    {
        let mut text = "Add a detailed doc comment to the following ".to_owned();
        text.append(language);
        text.append(" method:\n            ");
        text.append(code);
        text.append(
            "\n            The doc comment should describe what the method does. \n            Return the method implementaion with the doc comment above the method\n            as a code comment. Don't include any explanations in your response.",
        );
        text
    }

    /// What the caller gets of a request: the text that the model
    /// generated, or a report of why it generated none.
    pub fn response(&self, generated: Result<String, String>) -> (outcome: Result<String, String>)
        ensures
            outcome_view(outcome) == match generated {
                Ok(text) => Ok::<Seq<char>, Seq<char>>(text@),
                Err(cause) => Err::<Seq<char>, Seq<char>>(failure_text(cause@)),
            },
    {
        match generated {
            Ok(text) => Ok(text),
            Err(cause) => {
                let mut report = "Error generating response: ".to_owned();
                report.append(cause.as_str());
                Err(report)
            },
        }
    }
}

} // verus!
