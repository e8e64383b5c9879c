//! How hurl is called, and the variables that are injected into every call.

use vstd::prelude::*;

use crate::keys::{HurlinKey, TaskId};
use crate::text;

verus! {

broadcast use text::lemma_texts_push;

/// An ASCII letter.
pub open spec fn is_letter(c: char) -> bool {
    'a' <= c <= 'z' || 'A' <= c <= 'Z'
}

/// A character that may stand in the name of a variable, but for the first place.
pub open spec fn is_name_char(c: char) -> bool {
    is_letter(c) || '0' <= c <= '9' || c == '-' || c == '_'
}

/// The name of a variable, by the grammar of hurl files.
pub open spec fn is_var_name(text: Seq<char>) -> bool {
    &&& text.len() > 0
    &&& is_letter(text[0])
    &&& forall|i: int| 1 <= i < text.len() ==> is_name_char(#[trigger] text[i])
}

/// The value of a variable.
pub struct HurlVar(pub String);

/// The name of a variable.
pub struct HurlVarName(String);

impl View for HurlVarName {
    type V = Seq<char>;

    closed spec fn view(&self) -> Seq<char> {
        self.0@
    }
}

impl HurlVarName {
    #[verifier::type_invariant]
    spec fn is_name(self) -> bool {
        is_var_name(self.0@)
    }

    /// The variable name `s`. What is not a variable name is handed back.
    pub fn new(s: String) -> (name: Result<Self, String>)
        ensures
            match name {
                Ok(name) => is_var_name(s@) && name@ == s@,
                Err(given) => !is_var_name(s@) && given == s,
            },
    {
        if !s.is_ascii() {
            proof {
                if is_var_name(s@) {
                    assert(forall|i: int| 0 <= i < s@.len() ==> is_name_char(#[trigger] s@[i]));
                    assert(vstd::utf8::is_ascii_chars(s@));
                }
            }
            return Err(s);
        }
        let bytes = s.as_str().as_bytes();
        proof {
            vstd::utf8::is_ascii_chars_encode_utf8(s@);
        }
        if bytes.len() == 0 {
            return Err(s);
        }
        if !is_ascii_letter(bytes[0]) {
            return Err(s);
        }
        let mut i: usize = 1;
        while i < bytes.len()
            invariant
                1 <= i <= bytes.len(),
                bytes@.len() == s@.len(),
                vstd::utf8::is_ascii_chars(s@),
                forall|j: int| 0 <= j < s@.len() ==> #[trigger] bytes@[j] == s@[j] as u8,
                forall|j: int| 1 <= j < i ==> is_name_char(#[trigger] s@[j]),
            decreases bytes.len() - i,
        {
            let b = bytes[i];
            if !(is_ascii_letter(b) || (0x30 <= b && b <= 0x39) || b == 0x2d || b == 0x5f) {
                assert(!is_name_char(s@[i as int]));
                return Err(s);
            }
            i += 1;
        }
        Ok(HurlVarName(s))
    }

    /// The name as text.
    pub fn as_str(&self) -> (text: &str)
        ensures
            text@ == self@,
            is_var_name(text@),
    {
        proof {
            use_type_invariant(self);
        }
        self.0.as_str()
    }
}

/// Whether a byte is an ASCII letter.
fn is_ascii_letter(b: u8) -> (result: bool)
    ensures
        result == is_letter(b as char),
{
    (0x61 <= b && b <= 0x7a) || (0x41 <= b && b <= 0x5a)
}

/// A variable: its name and its value.
pub type Variable = (HurlVarName, HurlVar);

/// The texts of a variable.
pub open spec fn variable(v: Variable) -> (Seq<char>, Seq<char>) {
    (v.0@, v.1.0@)
}

/// The texts of a list of variables.
pub open spec fn variables(list: Seq<Variable>) -> Seq<(Seq<char>, Seq<char>)> {
    list.map_values(|v: Variable| variable(v))
}

/// What hurl is told of its variables: a flag for each, followed by its name and value.
pub open spec fn variable_arguments(list: Seq<(Seq<char>, Seq<char>)>) -> Seq<Seq<char>> {
    Seq::new(
        2 * list.len(),
        |i: int|
            if i % 2 == 0 {
                "--variable"@
            } else {
                list[i / 2].0 + "="@ + list[i / 2].1
            },
    )
}

/// The command line of hurl: the arguments to be forwarded, the variables, and the file.
pub open spec fn command_line(
    arguments: Seq<Seq<char>>,
    list: Seq<(Seq<char>, Seq<char>)>,
    file: Seq<char>,
) -> Seq<Seq<char>> {
    arguments + seq!["--color"@] + variable_arguments(list) + seq![file]
}

/// The arguments with which hurl runs `file`.
pub fn hurl_call(file: &str, variables: &Vec<Variable>, arguments: &Vec<String>) -> (line: Vec<
    String,
>)
    ensures
        text::texts(line@) == command_line(
            text::texts(arguments@),
            self::variables(variables@),
            file@,
        ),
{
    let mut line: Vec<String> = Vec::new();
    let mut i: usize = 0;
    while i < arguments.len()
        invariant
            i <= arguments.len(),
            text::texts(line@) =~= text::texts(arguments@).take(i as int),
        decreases arguments.len() - i,
    {
        line.push(arguments[i].clone());
        assert(text::texts(arguments@)[i as int] == arguments@[i as int]@);
        i += 1;
    }
    line.push("--color".to_owned());
    let ghost before = text::texts(arguments@) + seq!["--color"@];
    let ghost list = self::variables(variables@);
    assert(text::texts(line@) =~= before + variable_arguments(list.take(0)));
    let mut i: usize = 0;
    while i < variables.len()
        invariant
            i <= variables.len(),
            list == self::variables(variables@),
            text::texts(line@) =~= before + variable_arguments(list.take(i as int)),
        decreases variables.len() - i,
    {
        let v = &variables[i];
        let mut assignment = text::concat2(v.0.as_str(), "=");
        assignment.append(v.1.0.as_str());
        line.push("--variable".to_owned());
        line.push(assignment);
        proof {
            assert(list[i as int] == variable(*v));
            assert(variable_arguments(list.take(i + 1)) =~= variable_arguments(
                list.take(i as int),
            ).push("--variable"@).push(list[i as int].0 + "="@ + list[i as int].1));
        }
        i += 1;
    }
    proof {
        assert(list.take(list.len() as int) =~= list);
    }
    line.push(file.to_owned());
    line
}

/// Where a task finds a service of the session.
pub open spec fn endpoint(
    port: nat,
    service: Seq<char>,
    key: Seq<char>,
    task: Seq<char>,
) -> Seq<char> {
    "http://localhost:"@ + text::decimal(port) + "/"@ + service + "/"@ + key + "/"@ + task + "/"@
}

/// How a directory is prefixed to the files in it.
pub open spec fn dir_prefix(base_dir: Seq<char>) -> Seq<char> {
    if base_dir.len() == 0 {
        base_dir
    } else {
        base_dir + "/"@
    }
}

/// The variables that every hurl task of the session gets.
pub open spec fn injected(
    port: nat,
    key: Seq<char>,
    task: Seq<char>,
    base_dir: Seq<char>,
) -> Seq<(Seq<char>, Seq<char>)> {
    seq![
        ("hurlin-import"@, endpoint(port, "import"@, key, task) + dir_prefix(base_dir)),
        ("hurlin-async"@, endpoint(port, "async"@, key, task) + dir_prefix(base_dir)),
        ("hurlin-readfile"@, endpoint(port, "readfile"@, key, task) + dir_prefix(base_dir)),
        ("hurlin-await"@, endpoint(port, "await"@, key, task)),
        ("hurlin-export"@, endpoint(port, "export"@, key, task)),
        ("hurlin-noise"@, endpoint(port, "noise"@, key, task)),
    ]
}

/// Writes where a task finds a service of the session.
fn endpoint_text(port: u16, service: &str, key: &HurlinKey, task: &TaskId) -> (url: String)
    ensures
        url@ == endpoint(port as nat, service@, key@, task@),
{
    let mut url = text::concat2("http://localhost:", text::decimal_text(port as u64).as_str());
    url.append("/");
    url.append(service);
    url.append("/");
    url.append(key.as_str());
    url.append("/");
    url.append(task.as_str());
    url.append("/");
    url
}

/// Writes how a directory is prefixed to the files in it.
fn dir_prefix_text(base_dir: &str) -> (prefix: String)
    ensures
        prefix@ == dir_prefix(base_dir@),
{
    if base_dir.is_empty() {
        base_dir.to_owned()
    } else {
        text::concat2(base_dir, "/")
    }
}

/// A variable with a name that is known to be one.
fn named(name: &str, value: String) -> (v: Variable)
    requires
        is_var_name(name@),
    ensures
        variable(v) == (name@, value@),
{
    (HurlVarName::new(name.to_owned()).unwrap(), HurlVar(value))
}

/// The names of the injected variables are variable names.
proof fn lemma_injected_names()
    ensures
        is_var_name("hurlin-import"@),
        is_var_name("hurlin-async"@),
        is_var_name("hurlin-readfile"@),
        is_var_name("hurlin-await"@),
        is_var_name("hurlin-export"@),
        is_var_name("hurlin-noise"@),
{
    reveal_strlit("hurlin-import");
    reveal_strlit("hurlin-async");
    reveal_strlit("hurlin-readfile");
    reveal_strlit("hurlin-await");
    reveal_strlit("hurlin-export");
    reveal_strlit("hurlin-noise");
}

/// The variables that every hurl task of the session gets.
pub fn injected_variables(port: u16, key: &HurlinKey, task: &TaskId, base_dir: &str) -> (list: Vec<
    Variable,
>)
    ensures
        variables(list@) == injected(port as nat, key@, task@, base_dir@),
{
    proof {
        lemma_injected_names();
    }
    let prefix = dir_prefix_text(base_dir);
    let mut list: Vec<Variable> = Vec::new();
    let url = endpoint_text(port, "import", key, task).concat(prefix.as_str());
    list.push(named("hurlin-import", url));
    let url = endpoint_text(port, "async", key, task).concat(prefix.as_str());
    list.push(named("hurlin-async", url));
    let url = endpoint_text(port, "readfile", key, task).concat(prefix.as_str());
    list.push(named("hurlin-readfile", url));
    list.push(named("hurlin-await", endpoint_text(port, "await", key, task)));
    list.push(named("hurlin-export", endpoint_text(port, "export", key, task)));
    list.push(named("hurlin-noise", endpoint_text(port, "noise", key, task)));
    assert(variables(list@) =~= injected(port as nat, key@, task@, base_dir@));
    list
}

/// Every injected variable has the name of a variable.
pub proof fn law_injected_names(
    port: nat,
    key: Seq<char>,
    task: Seq<char>,
    base_dir: Seq<char>,
    i: int,
)
    requires
        0 <= i < injected(port, key, task, base_dir).len(),
    ensures
        is_var_name(injected(port, key, task, base_dir)[i].0),
{
    lemma_injected_names();
}

} // verus!
