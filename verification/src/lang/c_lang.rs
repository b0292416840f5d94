use vstd::prelude::*;
use crate::path::{join, join_paths};
use crate::resolver::path_resolver::{or_empty, resolve};
use crate::path::{file_name, parent_or_dot};
use crate::text::{copy_str, same_text};

verus! {

/// The texts of a sequence of strings.
pub open spec fn texts(s: Seq<String>) -> Seq<Seq<char>> {
    s.map_values(|x: String| x@)
}

/// The name given after the last `-o` among the first `n` compiler arguments that has an
/// argument after it.
pub open spec fn output_stem(args: Seq<Seq<char>>, n: int) -> Option<Seq<char>>
    decreases n,
{
    if n < 2 {
        None
    } else if args[n - 2] == "-o"@ {
        Some(args[n - 1])
    } else {
        output_stem(args, n - 1)
    }
}

/// The executable that the compiler writes: the name after the last `-o` with `.exe`
/// added, or `a.exe`.
pub open spec fn output_file(args: Seq<Seq<char>>) -> Seq<char> {
    match output_stem(args, args.len() as int) {
        Some(stem) => stem + ".exe"@,
        None => "a.exe"@,
    }
}

/// How many arguments a scan that has looked at `i` of `len` arguments has covered.
spec fn scanned(i: int, len: int) -> int {
    if i + 1 <= len {
        i + 1
    } else {
        len
    }
}

/// The path of the executable that the compiler writes into `dir`.
pub fn output_path(dir: &str, gcc_args: &[String]) -> (r: String)
    ensures
        r@ == join(dir@, output_file(texts(gcc_args@))),
{
    let ghost a = texts(gcc_args@);
    let mut found: Option<usize> = None;
    let mut i: usize = 0;
    while i < gcc_args.len()
        invariant
            i <= gcc_args@.len(),
            a == texts(gcc_args@),
            a.len() == gcc_args@.len(),
            match found {
                Some(k) => k + 1 < a.len() && output_stem(a, scanned(i as int, a.len() as int))
                    == Some(a[k + 1]),
                None => output_stem(a, scanned(i as int, a.len() as int)) is None,
            },
        decreases gcc_args.len() - i,
    {
        assert(a[i as int] == gcc_args@[i as int]@);
        if i + 1 < gcc_args.len() && same_text(gcc_args[i].as_str(), "-o") {
            found = Some(i);
        }
        i = i + 1;
    }
    let name = match found {
        Some(k) => {
            let mut n = gcc_args[k + 1].clone();
            n.append(".exe");
            n
        },
        None => copy_str("a.exe"),
    };
    join_paths(dir, name.as_str())
}

/// An argument list that starts with `first` and goes on with `rest`.
pub fn with_first(first: &str, rest: &[String]) -> (r: Vec<String>)
    ensures
        texts(r@) == seq![first@] + texts(rest@),
{
    let mut r: Vec<String> = Vec::new();
    r.push(copy_str(first));
    let mut i: usize = 0;
    while i < rest.len()
        invariant
            i <= rest@.len(),
            r@.len() == i + 1,
            r@[0]@ == first@,
            forall|k: int| 0 <= k < i ==> r@[k + 1]@ == (#[trigger] rest@[k])@,
        decreases rest.len() - i,
    {
        r.push(rest[i].clone());
        i = i + 1;
    }
    assert(texts(r@) =~= seq![first@] + texts(rest@));
    r
}

/// The compiler argument at index `j`: a name that follows `-o` gets `.exe` added, so the
/// compiler writes the executable under the name it is run by.
pub open spec fn gcc_arg(args: Seq<Seq<char>>, j: int) -> Seq<char> {
    if j >= 1 && args[j - 1] == "-o"@ {
        args[j] + ".exe"@
    } else {
        args[j]
    }
}

/// The extra compiler arguments as they are handed to the compiler.
pub open spec fn gcc_args_for(args: Seq<Seq<char>>) -> Seq<Seq<char>> {
    Seq::new(args.len(), |j: int| gcc_arg(args, j))
}

/// The compiler's arguments: the file name, then the arguments given, with `.exe` added
/// to each name that follows `-o`.
pub fn compiler_arguments(filename: &str, gcc_args: &[String]) -> (r: Vec<String>)
    ensures
        texts(r@) == seq![filename@] + gcc_args_for(texts(gcc_args@)),
{
    let ghost a = texts(gcc_args@);
    let mut r: Vec<String> = Vec::new();
    r.push(copy_str(filename));
    let mut i: usize = 0;
    while i < gcc_args.len()
        invariant
            i <= gcc_args@.len(),
            a == texts(gcc_args@),
            r@.len() == i + 1,
            r@[0]@ == filename@,
            forall|k: int| 0 <= k < i ==> r@[k + 1]@ == #[trigger] gcc_arg(a, k),
        decreases gcc_args.len() - i,
    {
        let after_o = i >= 1 && same_text(gcc_args[i - 1].as_str(), "-o");
        let mut arg = gcc_args[i].clone();
        if after_o {
            arg.append(".exe");
        }
        assert(a[i as int] == gcc_args@[i as int]@);
        assert(i >= 1 ==> a[i - 1] == gcc_args@[i - 1]@);
        r.push(arg);
        assert(r@[i + 1]@ == gcc_arg(a, i as int));
        i = i + 1;
    }
    assert(texts(r@) =~= seq![filename@] + gcc_args_for(a));
    r
}

/// How to compile a C source file: the compiler's arguments, the directory it runs in,
/// and the executable it writes.
pub struct CompilePlan {
    pub args: Vec<String>,
    pub dir: String,
    pub output: String,
}

/// How to compile `file` with the extra compiler arguments `gcc_args`.
pub fn plan_compile(file: &str, gcc_args: &[String]) -> (r: CompilePlan)
    ensures
        texts(r.args@) == seq![or_empty(file_name(file@))] + gcc_args_for(texts(gcc_args@)),
        r.dir@ == parent_or_dot(file@),
        r.output@ == join(parent_or_dot(file@), output_file(texts(gcc_args@))),
{
    let p = resolve(file);
    let args = compiler_arguments(p.filename.as_str(), gcc_args);
    let output = output_path(p.dir.as_str(), gcc_args);
    CompilePlan { args, dir: p.dir, output }
}

/// The text written to a program's standard input: each input on a line of its own.
pub open spec fn input_lines(inputs: Seq<Seq<char>>) -> Seq<char>
    decreases inputs.len(),
{
    if inputs.len() == 0 {
        Seq::empty()
    } else {
        input_lines(inputs.drop_last()) + inputs.last() + "\n"@
    }
}

/// The text written to a program's standard input for the given inputs.
pub fn stdin_text(inputs: &[String]) -> (r: String)
    ensures
        r@ == input_lines(texts(inputs@)),
{
    let mut r = String::new();
    let mut i: usize = 0;
    while i < inputs.len()
        invariant
            i <= inputs@.len(),
            r@ == input_lines(texts(inputs@).subrange(0, i as int)),
        decreases inputs.len() - i,
    {
        r.append(inputs[i].as_str());
        r.append("\n");
        proof {
            let t = texts(inputs@).subrange(0, i + 1);
            assert(t.drop_last() =~= texts(inputs@).subrange(0, i as int));
        }
        i = i + 1;
    }
    assert(texts(inputs@).subrange(0, inputs@.len() as int) =~= texts(inputs@));
    r
}

/// Feeding two lists of inputs one after the other writes the text of the first, then the
/// text of the second.
pub proof fn law_input_lines_concat(a: Seq<Seq<char>>, b: Seq<Seq<char>>)
    ensures
        input_lines(a + b) == input_lines(a) + input_lines(b),
    decreases b.len(),
{
    if b.len() == 0 {
        assert(a + b =~= a);
        assert(input_lines(b) =~= Seq::<char>::empty());
        assert(input_lines(a) + input_lines(b) =~= input_lines(a));
    } else {
        law_input_lines_concat(a, b.drop_last());
        assert((a + b).drop_last() =~= a + b.drop_last());
        assert((a + b).last() == b.last());
        assert(input_lines(a + b) =~= input_lines(a) + input_lines(b));
    }
}

/// Each input is written as its own line: one input gives itself and a line break.
pub proof fn law_input_lines_single(x: Seq<char>)
    ensures
        input_lines(seq![x]) == x + "\n"@,
{
    assert(seq![x].drop_last() =~= Seq::<Seq<char>>::empty());
    assert(input_lines(Seq::<Seq<char>>::empty()) =~= Seq::<char>::empty());
    assert(Seq::<char>::empty() + x + "\n"@ =~= x + "\n"@);
}

/// A `-o` with a name at the end of the arguments decides the executable: the name with
/// `.exe` added, whatever came before.
pub proof fn law_output_last_flag(xs: Seq<Seq<char>>, name: Seq<char>)
    ensures
        output_file(xs + seq!["-o"@, name]) == name + ".exe"@,
{
    let a = xs + seq!["-o"@, name];
    assert(a[a.len() - 2] == "-o"@);
    assert(a[a.len() - 1] == name);
}

/// Without any `-o`, the executable is `a.exe`.
pub proof fn law_output_default(args: Seq<Seq<char>>)
    requires
        forall|i: int| 0 <= i < args.len() ==> args[i] != "-o"@,
    ensures
        output_file(args) == "a.exe"@,
{
    lemma_no_flag_no_stem(args, args.len() as int);
}

proof fn lemma_no_flag_no_stem(args: Seq<Seq<char>>, n: int)
    requires
        0 <= n <= args.len(),
        forall|i: int| 0 <= i < args.len() ==> args[i] != "-o"@,
    ensures
        output_stem(args, n) is None,
    decreases n,
{
    if n >= 2 {
        lemma_no_flag_no_stem(args, n - 1);
    }
}

} // verus!
