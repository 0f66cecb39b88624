//! The arguments of a run: the directory to sort, the number of classes, and
//! whether the classes are named by position only.

use vstd::prelude::*;
use vstd::string::*;
use crate::decimal::{decimal, parse_decimal, parsed_decimal, push_decimal};

verus! {

/// Minimum number of arguments: the program's own name, the target
/// directory and the class count.  A flag may follow.
pub const MIN_ARG_COUNT: usize = 3;

/// What follows the reason in the text of a usage error.
pub const USAGE_HELP: &'static str =
    "\n\nUsage: tensort <target_dir> <class_count> [-n | --no-names]\n\nArguments:\n<target_dir>    : Path to the target directory\n<class_count>   : Number of classes\n-n, --no-names  : Do not generate class names (optional)\n\nExample:\ntensort /path/to/images_dir 5 -n";

/// The arguments cannot be used; the field says why.
#[derive(Debug)]
pub struct InvalidUsageError(pub &'static str);

impl InvalidUsageError {
    /// The text shown for the error: the reason, then how to call the tool.
    pub open spec fn text(&self) -> Seq<char> {
        "Error: "@ + self.0@ + USAGE_HELP@
    }

    /// Writes out the error for the user.
    pub fn to_string(&self) -> (s: String)
        ensures
            s@ == self.text(),
    {
        let mut s = String::from_str("Error: ");
        s.append(self.0);
        s.append(USAGE_HELP);
        s
    }
}

/// The values passed on the command line.
#[derive(PartialEq, Debug)]
pub struct ArgumentsModel {
    target_dir: String,
    class_count: usize,
    should_not_gen_names: bool,
}

/// What an `ArgumentsModel` holds.
pub ghost struct Arguments {
    pub target_dir: Seq<char>,
    pub class_count: usize,
    pub should_not_gen_names: bool,
}

impl View for ArgumentsModel {
    type V = Arguments;

    closed spec fn view(&self) -> Arguments {
        Arguments {
            target_dir: self.target_dir@,
            class_count: self.class_count,
            should_not_gen_names: self.should_not_gen_names,
        }
    }
}

/// Whether an argument is the flag that turns naming by label off.
pub open spec fn is_no_names_flag(flag: Seq<char>) -> bool {
    flag == "-n"@ || flag == "--no-names"@
}

/// What the arguments mean, or the reason why they cannot be used.  The
/// checks are made in this order: enough arguments, a target that is a
/// directory, a class count that can be read.
pub open spec fn parsed_arguments(args: Seq<Seq<char>>, target_is_dir: bool) -> Result<
    Arguments,
    Seq<char>,
> {
    if args.len() < MIN_ARG_COUNT {
        Err("Not enough arguments provided"@)
    } else if !target_is_dir {
        Err("Provided path is not a directory"@)
    } else {
        match parsed_decimal(args[2]) {
            Some(class_count) => Ok(
                Arguments {
                    target_dir: args[1],
                    class_count,
                    should_not_gen_names: args.len() > 3 && is_no_names_flag(args[3]),
                },
            ),
            None => Err("Invalid number provided for class count"@),
        }
    }
}

/// The text that describes the arguments of a run.
pub open spec fn arguments_text(arguments: Arguments) -> Seq<char> {
    "Running tensort with options:\n<target_dir>        : "@ + arguments.target_dir
        + "\n<class_count>       : "@ + decimal(arguments.class_count as nat)
        + "\n<no_class_names>    : "@ + (if arguments.should_not_gen_names {
        "true"@
    } else {
        "false"@
    }) + "\n            "@
}

impl ArgumentsModel {
    /// Reads the arguments of a run.  `args[1]` names the target directory
    /// and `target_is_dir` says whether it is one; `args[2]` is the class
    /// count; `args[3]`, if it is `-n` or `--no-names`, turns naming by label
    /// off.
    pub fn from(args: Vec<String>, target_is_dir: bool) -> (r: Result<Self, InvalidUsageError>)
        ensures
            match (r, parsed_arguments(args.deep_view(), target_is_dir)) {
                (Ok(model), Ok(arguments)) => model@ == arguments,
                (Err(error), Err(reason)) => error.0@ == reason,
                _ => false,
            },
    {
        if args.len() < MIN_ARG_COUNT {
            return Err(InvalidUsageError("Not enough arguments provided"));
        }
        if !target_is_dir {
            return Err(InvalidUsageError("Provided path is not a directory"));
        }
        let class_count: usize = match parse_decimal(args[2].as_str()) {
            Some(class_count) => class_count,
            None => {
                return Err(InvalidUsageError("Invalid number provided for class count"));
            },
        };
        let should_not_gen_names: bool = args.len() > 3 && (args[3] == String::from_str("-n")
            || args[3] == String::from_str("--no-names"));
        Ok(ArgumentsModel { target_dir: args[1].clone(), class_count, should_not_gen_names })
    }

    /// The directory whose images are sorted.
    pub fn target_dir(&self) -> (target_dir: &String)
        ensures
            target_dir@ == self@.target_dir,
    {
        &self.target_dir
    }

    /// The number of classes to sort into.
    pub fn class_count(&self) -> (class_count: usize)
        ensures
            class_count == self@.class_count,
    {
        self.class_count
    }

    /// Whether the classes are named by position only.
    pub fn should_not_gen_names(&self) -> (flag: bool)
        ensures
            flag == self@.should_not_gen_names,
    {
        self.should_not_gen_names
    }

    /// Writes out the arguments for the user.
    pub fn to_string(&self) -> (s: String)
        ensures
            s@ == arguments_text(self@),
    {
        let mut s = String::from_str("Running tensort with options:\n<target_dir>        : ");
        s.append(self.target_dir.as_str());
        s.append("\n<class_count>       : ");
        push_decimal(&mut s, self.class_count);
        s.append("\n<no_class_names>    : ");
        if self.should_not_gen_names {
            s.append("true");
        } else {
            s.append("false");
        }
        s.append("\n            ");
        s
    }
}

} // verus!
