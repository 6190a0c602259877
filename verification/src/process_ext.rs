//! Commands that turn files of other formats into text before links are extracted, chosen by
//! file extension.

use vstd::prelude::*;

verus! {

/// The rule for one file extension, such as `pdf:pdftotext {} -`.
#[derive(Debug, PartialEq, Eq, Hash)]
pub struct ProcessExt {}

/// Why a text is no rule for a file extension.
#[derive(Debug, Clone, Copy, PartialEq, Eq)]
pub enum ProcessExtParseError {
    /// The text cannot be read as a rule.
    Invalid,
}

/// A template from which a command is made for one input.
#[derive(Debug, PartialEq)]
pub struct CommandTemplate {}

/// The command templates of one run, in the order in which they were given.
#[derive(Debug, PartialEq)]
pub struct CommandSet {
    pub commands: Vec<CommandTemplate>,
}

impl CommandTemplate {
    /// The template for the words of one command. Every list of words is accepted.
    pub fn new(input: &Vec<String>) -> (out: Result<CommandTemplate, ProcessExtParseError>)
        ensures
            out is Ok,
    {
        Ok(CommandTemplate {  })
    }
}

impl CommandSet {
    /// One template for each command of `input`, in order. Every input is accepted.
    pub fn new(input: &Vec<Vec<String>>) -> (out: Result<CommandSet, ProcessExtParseError>)
        ensures
            out matches Ok(set) && set.commands@.len() == input@.len(),
    {
        let mut commands: Vec<CommandTemplate> = Vec::new();
        let mut i: usize = 0;
        while i < input.len()
            invariant
                i <= input@.len(),
                commands@.len() == i,
            decreases input@.len() - i,
        {
            match CommandTemplate::new(&input[i]) {
                Ok(template) => {
                    commands.push(template);
                },
                Err(error) => {
                    return Err(error);
                },
            }
            i = i + 1;
        }
        Ok(CommandSet { commands })
    }
}

} // verus!
