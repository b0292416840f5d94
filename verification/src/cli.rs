use vstd::prelude::*;
use crate::lang::c_lang::texts;
use crate::path::extension;
use crate::resolver::path_resolver::{or_empty, resolve};
use crate::text::{copy_str, same_text};

verus! {

/// What the command line asks for.
pub enum Command {
    /// Print the version.
    Version,
    /// Create a C source file and its test case file.
    Init,
    /// Run the test cases of a C source file.
    Test,
    /// Compile and run a C source file, with extra compiler arguments.
    Run { gcc_args: Vec<String> },
    /// The command exists, but not for files with this extension.
    UnsupportedExtension { ext: String },
    /// No such command.
    Unknown { command: String },
}

/// The command named by the first argument, for the file named by the second.
pub fn choose_command(args: &Vec<String>) -> (r: Command)
    requires
        args@.len() >= 3,
    ensures
        ({
            let cmd = args@[1]@;
            let ext = or_empty(extension(args@[2]@));
            if cmd == "-v"@ || cmd == "--version"@ {
                r is Version
            } else if cmd == "init"@ {
                r is Init
            } else if cmd == "test"@ || cmd == "run"@ {
                if ext == "c"@ {
                    if cmd == "test"@ {
                        r is Test
                    } else {
                        r matches Command::Run { gcc_args } && texts(gcc_args@) == texts(
                            args@,
                        ).skip(3)
                    }
                } else {
                    r matches Command::UnsupportedExtension { ext: e } && e@ == ext
                }
            } else {
                r matches Command::Unknown { command } && command@ == cmd
            }
        }),
{
    let file = resolve(args[2].as_str());
    let cmd = args[1].as_str();
    if same_text(cmd, "-v") || same_text(cmd, "--version") {
        Command::Version
    } else if same_text(cmd, "init") {
        Command::Init
    } else if same_text(cmd, "test") || same_text(cmd, "run") {
        if same_text(file.ext.as_str(), "c") {
            if same_text(cmd, "test") {
                Command::Test
            } else {
                let mut gcc_args: Vec<String> = Vec::new();
                let mut i: usize = 3;
                while i < args.len()
                    invariant
                        3 <= i <= args@.len(),
                        gcc_args@.len() == i - 3,
                        forall|k: int|
                            0 <= k < i - 3 ==> (#[trigger] gcc_args@[k])@ == args@[k + 3]@,
                    decreases args.len() - i,
                {
                    gcc_args.push(args[i].clone());
                    i = i + 1;
                }
                assert(texts(gcc_args@) =~= texts(args@).skip(3));
                Command::Run { gcc_args }
            }
        } else {
            Command::UnsupportedExtension { ext: file.ext }
        }
    } else {
        Command::Unknown { command: copy_str(cmd) }
    }
}

/// The line printed before a program's output.
pub open spec fn run_header(ext: Seq<char>) -> Seq<char> {
    "====== Lang: "@ + ext + " STANDARD OUTPUT ======"@
}

/// The line printed before and after a program's output.
pub struct Banner {
    pub header: String,
    pub closer: String,
}

/// The header for a run in language `ext`, and a closing line of `=` as long as the header.
pub fn run_banner(ext: &str) -> (r: Banner)
    ensures
        r.header@ == run_header(ext@),
        r.closer@.len() == r.header@.len(),
        forall|i: int| 0 <= i < r.closer@.len() ==> r.closer@[i] == '=',
{
    let mut header = copy_str("====== Lang: ");
    header.append(ext);
    header.append(" STANDARD OUTPUT ======");
    let n = header.as_str().unicode_len();
    let closer = crate::text::repeat_char('=', n);
    Banner { header, closer }
}

} // verus!
