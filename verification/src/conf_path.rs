//! Where the configuration file is looked for: a default that the
//! environment and the command line may replace.

use std::borrow::Cow;
use vstd::prelude::*;
use vstd::string::*;

verus! {

/// The path that holds unless another is given.
pub fn default_path() -> (path: Cow<'static, str>)
    ensures
        path@ == "/etc/app/app.conf"@,
{
    Cow::Borrowed("/etc/app/app.conf")
}

/// Replaces `path` by what the environment gives for it, if that is
/// anything but the empty string.
pub fn replace_with_env_path(path: &mut Cow<'_, str>, given: Option<String>)
    ensures
        final(path)@ == match given {
            Some(s) => if s@.len() > 0 {
                s@
            } else {
                old(path)@
            },
            None => old(path)@,
        },
{
    if let Some(s) = given {
        if !s.as_str().is_empty() {
            *path = Cow::Owned(s);
        }
    }
}

/// Why the command line gives no path.
pub enum ArgsPathError {
    /// The first argument is not `--conf`; it is handed back.
    InvalidArgument(String),
    /// `--conf` is not followed by a path, or by an empty one.
    EmptyString,
}

/// Replaces `path` by what the command line gives for it.
///
/// `args` is the command line with the program's name in front. Without
/// further arguments the path stays. Otherwise the first argument must be
/// `--conf` and the second, which must not be empty, is the path.
pub fn replace_with_args_path(path: &mut Cow<'_, str>, args: Vec<String>) -> (outcome: Result<
    (),
    ArgsPathError,
>)
    ensures
        match outcome {
            Ok(_) => if args@.len() < 2 {
                final(path)@ == old(path)@
            } else {
                &&& args@[1]@ == "--conf"@
                &&& args@.len() > 2
                &&& args@[2]@.len() > 0
                &&& final(path)@ == args@[2]@
            },
            Err(ArgsPathError::InvalidArgument(s)) => {
                &&& args@.len() >= 2
                &&& args@[1]@ != "--conf"@
                &&& s@ == args@[1]@
                &&& final(path)@ == old(path)@
            },
            Err(ArgsPathError::EmptyString) => {
                &&& args@.len() >= 2
                &&& args@[1]@ == "--conf"@
                &&& (args@.len() == 2 || args@[2]@.len() == 0)
                &&& final(path)@ == old(path)@
            },
        },
{
    let mut args = args;
    if args.len() < 2 {
        return Ok(());
    }
    let flag = args.remove(1);
    if flag != String::from_str("--conf") {
        return Err(ArgsPathError::InvalidArgument(flag));
    }
    if args.len() < 2 {
        return Err(ArgsPathError::EmptyString);
    }
    let s = args.remove(1);
    if s.as_str().is_empty() {
        Err(ArgsPathError::EmptyString)
    } else {
        *path = Cow::Owned(s);
        Ok(())
    }
}

} // verus!
