use vstd::prelude::*;
use crate::lang::c_lang::{output_file, output_path, texts, with_first};
use crate::path::{file_name, file_name_of, join};
use crate::text::{copy_str, same_text};

verus! {

/// How to build and run a program, by the extension of its source file.
pub enum ExePlan {
    /// Compile with `gcc compile_args` in the source's directory, then run `output`.
    C { compile_args: Vec<String>, output: String },
    /// Compile with `javac compile_args`, then run `java run_args`, both in the source's directory.
    Java { compile_args: Vec<String>, run_args: Vec<String> },
    /// No toolchain is known for this extension.
    Unsupported { ext: String },
}

/// The file name of a path that has one.
pub open spec fn name_of(p: Seq<char>) -> Seq<char> {
    file_name(p)->0
}

/// How to build and run the source `path` with extension `ext`, class or program name
/// `name`, extra arguments `extra_args`, in directory `dir`.
pub fn plan_exe(ext: &str, extra_args: &[String], name: &str, path: &str, dir: &str) -> (r: ExePlan)
    requires
        ext@ == "c"@ || ext@ == "java"@ ==> file_name(path@) is Some,
    ensures
        ext@ == "c"@ ==> (r matches ExePlan::C { compile_args, output } && texts(compile_args@)
            == seq![name_of(path@)] + texts(extra_args@) && output@ == join(
            dir@,
            output_file(texts(extra_args@)),
        )),
        ext@ == "java"@ ==> (r matches ExePlan::Java { compile_args, run_args } && texts(
            compile_args@,
        ) == seq![name_of(path@)] && texts(run_args@) == seq![name@] + texts(extra_args@)),
        ext@ != "c"@ && ext@ != "java"@ ==> (r matches ExePlan::Unsupported { ext: e } && e@
            == ext@),
{
    proof {
        reveal_strlit("c");
        reveal_strlit("java");
        assert("c"@.len() == 1);
        assert("java"@.len() == 4);
    }
    if same_text(ext, "c") {
        let filename = match file_name_of(path) {
            Some(n) => n,
            None => String::new(),
        };
        let compile_args = with_first(filename.as_str(), extra_args);
        let output = output_path(dir, extra_args);
        ExePlan::C { compile_args, output }
    } else if same_text(ext, "java") {
        let filename = match file_name_of(path) {
            Some(n) => n,
            None => String::new(),
        };
        let mut compile_args: Vec<String> = Vec::new();
        compile_args.push(filename);
        assert(texts(compile_args@) =~= seq![name_of(path@)]);
        let run_args = with_first(name, extra_args);
        ExePlan::Java { compile_args, run_args }
    } else {
        ExePlan::Unsupported { ext: copy_str(ext) }
    }
}

} // verus!
