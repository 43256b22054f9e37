//! The meaning of a command line: which of the tool's actions the free-form
//! tokens select. The surrounding program performs the chosen action; the
//! choice itself is made here.

use vstd::prelude::*;
use crate::structs::Cli;
use crate::text::str_eq;
use crate::utils::{digits_val, parse_small_index, sign_body, spec_is_index_literal};

verus! {

broadcast use vstd::std_specs::vec::group_vec_axioms;

/// The action a command line selects.
pub enum CliCommand {
    /// Print the usage text.
    Help,
    /// List every saved request.
    ListAll,
    /// List one saved request in full, by 1-based index.
    ListOne(usize),
    /// Open the store file in the editor to add requests.
    Add,
    /// Ask for an index on the terminal and delete that request.
    DeleteInteractive,
    /// Edit the whole store file, or one request by its index token.
    Edit(Option<String>),
    /// List the global variables.
    GlobalsList,
    /// Add or overwrite a global variable: name, then value.
    GlobalsAdd(String, String),
    /// Delete a global variable by its index token.
    GlobalsDelete(String),
    /// Import an OpenAPI document from a location.
    Import(String),
    /// Dispatch the saved request at a 1-based index.
    SendSaved(usize),
    /// Dispatch a plain GET to a URL.
    SendUrl(String),
}

/// The model of a selected action.
#[verifier::ext_equal]
pub enum CliCommandV {
    Help,
    ListAll,
    ListOne(usize),
    Add,
    DeleteInteractive,
    Edit(Option<Seq<char>>),
    GlobalsList,
    GlobalsAdd(Seq<char>, Seq<char>),
    GlobalsDelete(Seq<char>),
    Import(Seq<char>),
    SendSaved(usize),
    SendUrl(Seq<char>),
}

impl View for CliCommand {
    type V = CliCommandV;

    open spec fn view(&self) -> CliCommandV {
        match self {
            CliCommand::Help => CliCommandV::Help,
            CliCommand::ListAll => CliCommandV::ListAll,
            CliCommand::ListOne(n) => CliCommandV::ListOne(*n),
            CliCommand::Add => CliCommandV::Add,
            CliCommand::DeleteInteractive => CliCommandV::DeleteInteractive,
            CliCommand::Edit(s) => CliCommandV::Edit(
                match s {
                    Option::Some(t) => Option::Some(t@),
                    Option::None => Option::None,
                },
            ),
            CliCommand::GlobalsList => CliCommandV::GlobalsList,
            CliCommand::GlobalsAdd(n, v) => CliCommandV::GlobalsAdd(n@, v@),
            CliCommand::GlobalsDelete(s) => CliCommandV::GlobalsDelete(s@),
            CliCommand::Import(s) => CliCommandV::Import(s@),
            CliCommand::SendSaved(n) => CliCommandV::SendSaved(*n),
            CliCommand::SendUrl(s) => CliCommandV::SendUrl(s@),
        }
    }
}

/// The model of the three argument tokens.
#[verifier::ext_equal]
pub struct CliV {
    pub first_arg: Option<Seq<char>>,
    pub second_arg: Option<Seq<char>>,
    pub third_arg: Option<Seq<char>>,
}

impl View for Cli {
    type V = CliV;

    open spec fn view(&self) -> CliV {
        CliV {
            first_arg: match self.first_arg {
                Option::Some(ref s) => Option::Some(s@),
                Option::None => Option::None,
            },
            second_arg: match self.second_arg {
                Option::Some(ref s) => Option::Some(s@),
                Option::None => Option::None,
            },
            third_arg: match self.third_arg {
                Option::Some(ref s) => Option::Some(s@),
                Option::None => Option::None,
            },
        }
    }
}

/// The action the tokens select: the subcommand letters first, each with
/// the argument shape it needs; a first token that is none of them is
/// dispatched directly, as a saved-request index when it is a nonnegative
/// number and as a URL otherwise.
pub open spec fn spec_interpret(c: CliV) -> CliCommandV {
    match c.first_arg {
        Option::None => CliCommandV::Help,
        Option::Some(f) => {
            if f == "help"@ || f == "h"@ || f.len() == 0 {
                CliCommandV::Help
            } else if f == "l"@ {
                match c.second_arg {
                    Option::Some(s) => if spec_is_index_literal(s) {
                        CliCommandV::ListOne(digits_val(sign_body(s)) as usize)
                    } else {
                        CliCommandV::ListAll
                    },
                    Option::None => CliCommandV::ListAll,
                }
            } else if f == "a"@ {
                CliCommandV::Add
            } else if f == "d"@ {
                CliCommandV::DeleteInteractive
            } else if f == "e"@ {
                CliCommandV::Edit(c.second_arg)
            } else if f == "gl"@ && c.second_arg is None {
                CliCommandV::GlobalsList
            } else if f == "ga"@ && c.second_arg is Some && c.third_arg is Some {
                CliCommandV::GlobalsAdd(c.second_arg->0, c.third_arg->0)
            } else if f == "gd"@ && c.second_arg is Some && c.third_arg is None {
                CliCommandV::GlobalsDelete(c.second_arg->0)
            } else if f == "i"@ && c.second_arg is Some {
                CliCommandV::Import(c.second_arg->0)
            } else if f == "i"@ {
                CliCommandV::Help
            } else if spec_is_index_literal(f) {
                CliCommandV::SendSaved(digits_val(sign_body(f)) as usize)
            } else {
                CliCommandV::SendUrl(f)
            }
        },
    }
}

/// The action a parsed command line selects.
pub fn interpret_cli(cli: &Cli) -> (r: CliCommand)
    ensures
        r@ == spec_interpret(cli@),
{
    let f = match &cli.first_arg {
        Option::Some(f) => f,
        Option::None => {
            return CliCommand::Help;
        },
    };
    if str_eq(f.as_str(), "help") || str_eq(f.as_str(), "h") || f.as_str().unicode_len() == 0 {
        CliCommand::Help
    } else if str_eq(f.as_str(), "l") {
        match &cli.second_arg {
            Option::Some(s) => {
                match parse_small_index(s.as_str()) {
                    Option::Some(n) => CliCommand::ListOne(n),
                    Option::None => CliCommand::ListAll,
                }
            },
            Option::None => CliCommand::ListAll,
        }
    } else if str_eq(f.as_str(), "a") {
        CliCommand::Add
    } else if str_eq(f.as_str(), "d") {
        CliCommand::DeleteInteractive
    } else if str_eq(f.as_str(), "e") {
        match &cli.second_arg {
            Option::Some(s) => CliCommand::Edit(Option::Some(s.clone())),
            Option::None => CliCommand::Edit(Option::None),
        }
    } else if str_eq(f.as_str(), "gl") && cli.second_arg.is_none() {
        CliCommand::GlobalsList
    } else if str_eq(f.as_str(), "ga") && cli.second_arg.is_some() && cli.third_arg.is_some() {
        let name = match &cli.second_arg {
            Option::Some(s) => s.clone(),
            Option::None => String::new(),
        };
        let value = match &cli.third_arg {
            Option::Some(s) => s.clone(),
            Option::None => String::new(),
        };
        CliCommand::GlobalsAdd(name, value)
    } else if str_eq(f.as_str(), "gd") && cli.second_arg.is_some() && cli.third_arg.is_none() {
        let s = match &cli.second_arg {
            Option::Some(s) => s.clone(),
            Option::None => String::new(),
        };
        CliCommand::GlobalsDelete(s)
    } else if str_eq(f.as_str(), "i") && cli.second_arg.is_some() {
        let s = match &cli.second_arg {
            Option::Some(s) => s.clone(),
            Option::None => String::new(),
        };
        CliCommand::Import(s)
    } else if str_eq(f.as_str(), "i") {
        CliCommand::Help
    } else {
        match parse_small_index(f.as_str()) {
            Option::Some(n) => CliCommand::SendSaved(n),
            Option::None => CliCommand::SendUrl(f.clone()),
        }
    }
}

} // verus!
