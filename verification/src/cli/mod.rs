//! The command line of the compiler, as plain data.

use vstd::prelude::*;
use vstd::string::StringExecFns;

verus! {

/// What the command line asks for.
#[derive(Debug, Clone, PartialEq)]
pub struct Cli {
    pub command: Commands,
}

#[derive(Debug, Clone, PartialEq)]
pub enum Commands {
    /// Compile a source file to IR text or to an executable.
    Compile {
        /// The file to compile.
        input_file: String,
        /// Where the result goes.
        output: Option<String>,
        /// Whether to write IR text in place of an executable.
        emit_llvm: bool,
        /// The optimization level, from 0 to 3.
        optimization: u8,
    },
}

/// What a compile command is to do once the program has been compiled.
#[derive(Debug, Clone, PartialEq)]
pub enum Action {
    /// Print the IR text.
    PrintIr,
    /// Write the IR text to a file.
    WriteIr { path: String },
    /// Write the object code to `object`, link it into `executable`, and
    /// remove `object`.
    Link { object: String, executable: String },
}

/// The mathematical value of an [`Action`].
pub enum ActionView {
    PrintIr,
    WriteIr { path: Seq<char> },
    Link { object: Seq<char>, executable: Seq<char> },
}

impl View for Action {
    type V = ActionView;

    open spec fn view(&self) -> ActionView {
        match self {
            Action::PrintIr => ActionView::PrintIr,
            Action::WriteIr { path } => ActionView::WriteIr { path: path@ },
            Action::Link { object, executable } => ActionView::Link {
                object: object@,
                executable: executable@,
            },
        }
    }
}

/// The name of the executable: the one asked for, or `a.out`.
pub open spec fn executable_name(output: Option<Seq<char>>) -> Seq<char> {
    match output {
        Some(name) => name,
        None => "a.out"@,
    }
}

/// What a compile command is to do: IR text goes to the output file or is
/// printed; an executable is linked from an object file that is named after
/// it, with `.o` added.
pub open spec fn action_for(output: Option<Seq<char>>, emit_llvm: bool) -> ActionView {
    if emit_llvm {
        match output {
            Some(path) => ActionView::WriteIr { path },
            None => ActionView::PrintIr,
        }
    } else {
        ActionView::Link {
            object: executable_name(output) + ".o"@,
            executable: executable_name(output),
        }
    }
}

impl Commands {
    /// What the command is to do once its program has been compiled.
    pub fn action(&self) -> (action: Action)
        ensures
            action@ == match self {
                Commands::Compile { output, emit_llvm, .. } => action_for(
                    match output {
                        Some(name) => Some(name@),
                        None => None,
                    },
                    *emit_llvm,
                ),
            },
    {
        match self {
            Commands::Compile { output, emit_llvm, .. } => {
                if *emit_llvm {
                    match output {
                        Some(path) => Action::WriteIr { path: path.clone() },
                        None => Action::PrintIr,
                    }
                } else {
                    let executable = match output {
                        Some(name) => name.clone(),
                        None => "a.out".to_owned(),
                    };
                    let mut object = executable.clone();
                    object.append(".o");
                    Action::Link { object, executable }
                }
            },
        }
    }
}

} // verus!
