use vstd::prelude::*;
use crate::path::{
    extension, file_name, join, join_paths, law_join_file_name, lemma_parent_clean,
    lemma_parent_of_join, lemma_parent_of_plain_name, parent, parent_of, plain_name,
};
use crate::resolver::path_resolver::or_empty;
use crate::path::extension_of;
use crate::text::{copy_str, same_text};

verus! {

/// The C source file that `init` writes.
pub const C_TEMPLATE: &'static str = r#"#include <stdio.h>
#include <stdbool.h>

typedef const char *String;

#define DEFINE_SCAN_LOOP(type, format) \
type scan_loop_##type (const char* prompt, const char* error_msg) { \
    type value; \
    int c; \
    while (true) { \
        printf("%s", prompt); \
        if (scanf(format, &value) == 1) \
            return value; \
        printf("%s", error_msg); \
        while (((c = getchar()) != '\n') && (c != EOF)); \
    } \
}

DEFINE_SCAN_LOOP(int, "%d");

bool is_between_int (int min, int x, int max)
{
	return (min <= x) && (x <= max);
}


int main()
{
	return 0;
}"#;

/// The test case file that `init` writes beside the source file.
pub const TEST_CASE_TEMPLATE: &'static str = r#"[
  {
    "name": "enter_name",
    "inputs": [0],
    "expect": "enter_expect_stdout",
    "output_display": "watch",
    "skip": false,
    "only": false
  }
]"#;

/// Why `init` refuses its arguments.
pub enum InitError {
    /// No file was named.
    Usage,
    /// The file is not a `.c` file.
    NotC,
}

impl InitError {
    /// The message shown for the refusal.
    pub fn message(&self) -> (r: String)
        ensures
            r@ == match self {
                InitError::Usage => "Usage: jetexe init <file.c>"@,
                InitError::NotC => "init currently supports only .c files"@,
            },
    {
        match self {
            InitError::Usage => copy_str("Usage: jetexe init <file.c>"),
            InitError::NotC => copy_str("init currently supports only .c files"),
        }
    }
}

/// The name of the test case file.
pub open spec fn schema_name() -> Seq<char> {
    "test_case.json"@
}

/// The directory the test case file goes in: the parent of `file` as it is (empty for a
/// bare file name, so the name stays relative), or `.` when there is no parent.
pub open spec fn schema_dir(file: Seq<char>) -> Seq<char> {
    match parent(file) {
        Some(d) => d,
        None => seq!['.'],
    }
}

/// Where the test case file for `file` goes: beside it.
pub open spec fn schema_path(file: Seq<char>) -> Seq<char> {
    join(schema_dir(file), schema_name())
}

/// Where the test case file for `file` goes.
pub fn schema_path_of(file: &str) -> (r: String)
    ensures
        r@ == schema_path(file@),
{
    let dir = match parent_of(file) {
        Some(d) => d,
        None => {
            let r = copy_str(".");
            proof {
                reveal_strlit(".");
            }
            assert(r@ =~= seq!['.']);
            r
        },
    };
    join_paths(dir.as_str(), "test_case.json")
}

/// What `init` creates: the source file, the directory to create first if it has one,
/// and the test case file.
pub struct InitPlan {
    pub source: String,
    pub dir: Option<String>,
    pub schema: String,
}

/// Checks the arguments of `init` (the file is the third) and says what to create.
pub fn plan_init(args: &Vec<String>) -> (r: Result<InitPlan, InitError>)
    ensures
        args@.len() < 3 ==> r matches Err(InitError::Usage),
        args@.len() >= 3 && or_empty(extension(args@[2]@)) != "c"@ ==> r matches Err(
            InitError::NotC,
        ),
        args@.len() >= 3 && or_empty(extension(args@[2]@)) == "c"@ ==> (r matches Ok(plan) && {
            &&& plan.source@ == args@[2]@
            &&& match plan.dir {
                Some(d) => parent(args@[2]@) == Some(d@),
                None => parent(args@[2]@) is None,
            }
            &&& plan.schema@ == schema_path(args@[2]@)
        }),
{
    if args.len() < 3 {
        return Err(InitError::Usage);
    }
    let file = args[2].as_str();
    let ext = match extension_of(file) {
        Some(e) => e,
        None => String::new(),
    };
    if !same_text(ext.as_str(), "c") {
        return Err(InitError::NotC);
    }
    Ok(InitPlan { source: args[2].clone(), dir: parent_of(file), schema: schema_path_of(file) })
}

/// The test case file that `init` creates is named `test_case.json`, whatever the source.
pub proof fn law_schema_file_name(file: Seq<char>)
    ensures
        file_name(schema_path(file)) == Some(schema_name()),
{
    reveal_strlit("test_case.json");
    assert(plain_name(schema_name()));
    law_join_file_name(schema_dir(file), schema_name());
}

/// The test case file goes in the directory of the source file: the two have the same
/// parent, whenever the source has one.
pub proof fn law_schema_beside_source(file: Seq<char>)
    requires
        parent(file) is Some,
    ensures
        parent(schema_path(file)) == parent(file),
{
    reveal_strlit("test_case.json");
    let n = schema_name();
    assert(plain_name(n));
    let d = parent(file)->0;
    if d.len() > 0 {
        lemma_parent_clean(file);
        lemma_parent_of_join(d, n);
    } else {
        assert(join(d, n) =~= n);
        lemma_parent_of_plain_name(n);
        assert(d =~= Seq::<char>::empty());
    }
}

} // verus!
