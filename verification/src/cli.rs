//! The command line: `<program> rename|download [appid]`.
use vstd::prelude::*;

use crate::text::same_text;

verus! {

/// The app id used when the command line names none: `"294100"`.
pub open spec fn default_appid() -> Seq<char> {
    seq!['2', '9', '4', '1', '0', '0']
}

/// The word of the rename command: `"rename"`.
pub open spec fn rename_word() -> Seq<char> {
    seq!['r', 'e', 'n', 'a', 'm', 'e']
}

/// The word of the download command: `"download"`.
pub open spec fn download_word() -> Seq<char> {
    seq!['d', 'o', 'w', 'n', 'l', 'o', 'a', 'd']
}

/// The app id that a command line selects: its third argument when it has
/// exactly three, else the default.
pub open spec fn selected_appid(args: Seq<Seq<char>>) -> Seq<char> {
    if args.len() == 3 {
        args[2]
    } else {
        default_appid()
    }
}

/// The app id of a command line does not depend on the command: with
/// exactly three arguments it is the third, for `rename` and `download`
/// alike; with any other number it is `"294100"`.
pub proof fn law_appid_from_third_argument(args: Seq<Seq<char>>, command: Seq<char>)
    requires
        args.len() >= 2,
    ensures
        selected_appid(args.update(1, command)) == selected_appid(args),
        args.len() == 3 ==> selected_appid(args) == args[2],
        args.len() != 3 ==> selected_appid(args) == seq!['2', '9', '4', '1', '0', '0'],
{
    let a2 = args.update(1, command);
    assert(a2.len() == args.len());
    if args.len() == 3 {
        assert(a2[2] == args[2]);
    }
}

/// What the command line asks for.
pub enum Command {
    /// Too few arguments: print the usage.
    Usage,
    /// Rename the downloaded mod folders of the game `appid`.
    Rename { appid: String },
    /// Download the mods listed in the URL file for the game `appid`.
    Download { appid: String },
    /// An unknown command: do nothing.
    Unknown,
}

/// Reads the command line (the program name first).
pub fn parse_args(args: &Vec<String>) -> (r: Command)
    ensures
        args@.len() < 2 ==> r is Usage,
        args@.len() >= 2 ==> {
            let a = args.deep_view();
            &&& a[1] == rename_word() ==> (r matches Command::Rename { appid } && appid@
                == selected_appid(a))
            &&& a[1] == download_word() ==> (r matches Command::Download { appid } && appid@
                == selected_appid(a))
            &&& a[1] != rename_word() && a[1] != download_word() ==> r is Unknown
        },
{
    proof {
        reveal_strlit("294100");
        reveal_strlit("rename");
        reveal_strlit("download");
        assert("294100"@ =~= default_appid());
        assert("rename"@ =~= rename_word());
        assert("download"@ =~= download_word());
    }
    if args.len() < 2 {
        return Command::Usage;
    }
    let appid = if args.len() == 3 {
        args[2].clone()
    } else {
        String::from_str("294100")
    };
    let arg = args[1].as_str();
    if same_text(arg, "rename") {
        Command::Rename { appid }
    } else if same_text(arg, "download") {
        Command::Download { appid }
    } else {
        Command::Unknown
    }
}

} // verus!
