//! How hurl is called, and where the injected variables lead.

use vstd::prelude::*;

use crate::intern::FileNameRef;
use crate::paths;
use crate::state::StateView;
use crate::text;
use crate::vars;
use crate::vars::Variable;

verus! {

/// The number that decimal digits spell, the last digit counting least.
pub open spec fn read_decimal(digits: Seq<char>) -> int
    decreases digits.len(),
{
    if digits.len() == 0 {
        0
    } else {
        10 * read_decimal(digits.drop_last()) + (digits.last() as int - 48)
    }
}

/// A text of decimal digits, without a zero too many in front.
pub open spec fn is_decimal(digits: Seq<char>) -> bool {
    &&& digits.len() > 0
    &&& digits.len() > 1 ==> digits[0] as int != 48
    &&& forall|i: int| 0 <= i < digits.len() ==> 48 <= #[trigger] digits[i] as int <= 57
}

/// A number that is written in decimal reads back as itself, so that different numbers are written
/// differently.
pub proof fn law_decimals_read_back(n: nat)
    ensures
        is_decimal(text::decimal(n)),
        read_decimal(text::decimal(n)) == n,
        n > 0 ==> text::decimal(n)[0] as int != 48,
    decreases n,
{
    if n >= 10 {
        law_decimals_read_back(n / 10);
        let short = text::decimal(n / 10);
        assert(text::decimal(n).drop_last() =~= short);
        assert(text::decimal(n)[0] == short[0]);
    } else {
        assert(text::decimal(n).drop_last() =~= Seq::<char>::empty());
        reveal_with_fuel(read_decimal, 2);
    }
}

/// The address of a service leads back to the session: what stands between `http://localhost:` and
/// the next slash is the number of the port, and what follows is the service, the key of the
/// session and the key of the task, each closed by a slash.
pub proof fn law_addresses_lead_back(
    port: nat,
    service: Seq<char>,
    key: Seq<char>,
    task: Seq<char>,
) -> (digits: Seq<char>)
    ensures
        is_decimal(digits),
        read_decimal(digits) == port,
        ({
            let address = vars::endpoint(port, service, key, task);
            let host = "http://localhost:"@;
            let start = host.len() + digits.len();
            &&& address.take(host.len() as int) == host
            &&& address.subrange(host.len() as int, start as int) == digits
            &&& address.skip(start as int) == "/"@ + service + "/"@ + key + "/"@ + task + "/"@
            &&& start < address.len()
            &&& address[start as int] == '/'
        }),
{
    reveal_strlit("/");
    let digits = text::decimal(port);
    law_decimals_read_back(port);
    let address = vars::endpoint(port, service, key, task);
    let host = "http://localhost:"@;
    let start = host.len() + digits.len();
    let rest = "/"@ + service + "/"@ + key + "/"@ + task + "/"@;
    assert(address =~= host + digits + rest);
    assert(address.take(host.len() as int) =~= host);
    assert(address.subrange(host.len() as int, start as int) =~= digits);
    assert(address.skip(start as int) =~= rest);
    digits
}

/// Sessions on different ports have different addresses, even if all else is the same.
pub proof fn law_ports_have_their_own_addresses(
    a: nat,
    b: nat,
    service: Seq<char>,
    key: Seq<char>,
    task: Seq<char>,
)
    requires
        vars::endpoint(a, service, key, task) == vars::endpoint(b, service, key, task),
    ensures
        a == b,
{
    let x = law_addresses_lead_back(a, service, key, task);
    let y = law_addresses_lead_back(b, service, key, task);
    let address = vars::endpoint(a, service, key, task);
    let host = "http://localhost:"@.len() as int;
    if x.len() < y.len() {
        assert(y[x.len() as int] == address[host + x.len()]);
    }
    if y.len() < x.len() {
        assert(x[y.len() as int] == address[host + y.len()]);
    }
    assert(x =~= y);
}

/// A file is found below a directory behind the directory and a slash, and at the top as it is.
pub proof fn law_files_follow_their_directory(base_dir: Seq<char>, file: Seq<char>)
    ensures
        base_dir.len() == 0 ==> vars::dir_prefix(base_dir) + file == file,
        base_dir.len() > 0 ==> vars::dir_prefix(base_dir) + file == base_dir + "/"@ + file,
{
    if base_dir.len() == 0 {
        assert(vars::dir_prefix(base_dir) + file =~= file);
    }
}

/// The services of a session.
pub open spec fn services() -> Seq<Seq<char>> {
    seq!["import"@, "async"@, "readfile"@, "await"@, "export"@, "noise"@]
}

/// A service that is asked for files.
pub open spec fn takes_files(service: Seq<char>) -> bool {
    service == "import"@ || service == "async"@ || service == "readfile"@
}

/// Every task gets one variable for each service, named after it, that leads to that service; and,
/// where the service is asked for files, to the directory of the task's own file.
pub proof fn law_every_service_is_injected(
    port: nat,
    key: Seq<char>,
    task: Seq<char>,
    base_dir: Seq<char>,
    i: int,
)
    requires
        0 <= i < services().len(),
    ensures
        ({
            let list = vars::injected(port, key, task, base_dir);
            let service = services()[i];
            let address = vars::endpoint(port, service, key, task);
            &&& list.len() == services().len()
            &&& list[i].0 == "hurlin-"@ + service
            &&& list[i].1.take(address.len() as int) == address
            &&& list[i].1.skip(address.len() as int) == (if takes_files(service) {
                vars::dir_prefix(base_dir)
            } else {
                Seq::empty()
            })
        }),
{
    reveal_strlit("hurlin-");
    reveal_strlit("import");
    reveal_strlit("async");
    reveal_strlit("readfile");
    reveal_strlit("await");
    reveal_strlit("export");
    reveal_strlit("noise");
    reveal_strlit("hurlin-import");
    reveal_strlit("hurlin-async");
    reveal_strlit("hurlin-readfile");
    reveal_strlit("hurlin-await");
    reveal_strlit("hurlin-export");
    reveal_strlit("hurlin-noise");
    let list = vars::injected(port, key, task, base_dir);
    let service = services()[i];
    let address = vars::endpoint(port, service, key, task);
    assert("await"@[1] == 'w' && "export"@[0] == 'e' && "noise"@[0] == 'n');
    assert("async"@[1] == 's' && "import"@[0] == 'i' && "readfile"@[0] == 'r');
    assert(list[i].0 =~= "hurlin-"@ + service);
    let rest = if takes_files(service) {
        vars::dir_prefix(base_dir)
    } else {
        Seq::empty()
    };
    assert(list[i].1 =~= address + rest);
    assert(list[i].1.take(address.len() as int) =~= address);
    assert(list[i].1.skip(address.len() as int) =~= rest);
}

/// Hurl is called with the arguments to be forwarded, in their order; then in colour; then with each
/// variable behind a flag of its own, in their order, its name and value apart by an equals sign;
/// and at the end with the file. There is nothing else.
pub proof fn law_command_line(
    arguments: Seq<Seq<char>>,
    list: Seq<(Seq<char>, Seq<char>)>,
    file: Seq<char>,
    i: int,
)
    ensures
        ({
            let line = vars::command_line(arguments, list, file);
            let n = arguments.len();
            &&& line.len() == n + 1 + 2 * list.len() + 1
            &&& line.take(n as int) == arguments
            &&& line[n as int] == "--color"@
            &&& 0 <= i < list.len() ==> {
                &&& line[n + 1 + 2 * i] == "--variable"@
                &&& line[n + 2 + 2 * i].take(list[i].0.len() as int) == list[i].0
                &&& line[n + 2 + 2 * i][list[i].0.len() as int] == '='
                &&& line[n + 2 + 2 * i].skip(list[i].0.len() as int + 1) == list[i].1
                &&& line[n + 2 + 2 * i].len() == list[i].0.len() + 1 + list[i].1.len()
            }
            &&& line.last() == file
        }),
{
    reveal_strlit("=");
    let line = vars::command_line(arguments, list, file);
    let n = arguments.len();
    assert(line.take(n as int) =~= arguments);
    if 0 <= i < list.len() {
        let assignment = line[n + 2 + 2 * i];
        assert(assignment == list[i].0 + "="@ + list[i].1);
        assert(assignment.take(list[i].0.len() as int) =~= list[i].0);
        assert(assignment.skip(list[i].0.len() as int + 1) =~= list[i].1);
    }
}

/// The texts of variables are those of their names and values, one for one.
pub proof fn law_variables_are_spelled_out(list: Seq<Variable>, i: int)
    ensures
        vars::variables(list).len() == list.len(),
        0 <= i < list.len() ==> vars::variables(list)[i].0 == list[i].0@,
        0 <= i < list.len() ==> vars::variables(list)[i].1 == list[i].1.0@,
{
}

/// The name of a variable is an ASCII letter, followed by ASCII letters, digits, hyphens and
/// underscores, as many as one likes.
pub proof fn law_variable_names(text: Seq<char>)
    ensures
        vars::is_var_name(text) <==> {
            &&& text.len() > 0
            &&& 97 <= text[0] as int <= 122 || 65 <= text[0] as int <= 90
            &&& forall|i: int|
                #![trigger text[i]]
                1 <= i < text.len() ==> {
                    ||| 97 <= text[i] as int <= 122
                    ||| 65 <= text[i] as int <= 90
                    ||| 48 <= text[i] as int <= 57
                    ||| text[i] as int == 45
                    ||| text[i] as int == 95
                }
        },
{
}

/// Files are run, and reported, where they lie in the capped directory: at their name joined to it.
/// A file whose name is what is left of a path below the directory is run at that very path.
pub proof fn law_files_lie_in_the_capped_directory<L, W>(
    state: StateView<L, W>,
    file: FileNameRef,
    canon: Seq<char>,
)
    ensures
        state.rooted(file) == paths::joined(state.cap, state.names[file]),
        paths::stripped(canon, state.cap) == Some(state.names[file]) && paths::joined(
            state.cap,
            paths::stripped(canon, state.cap)->0,
        ) == canon ==> state.rooted(file) == canon,
{
}

/// Of a list of files, each is given where it lies in the capped directory, in the order of the
/// list.
pub proof fn law_lists_lie_in_the_capped_directory<L, W>(
    state: StateView<L, W>,
    files: Seq<FileNameRef>,
    i: int,
)
    ensures
        state.all_rooted(files).len() == files.len(),
        0 <= i < files.len() ==> state.all_rooted(files)[i] == paths::joined(
            state.cap,
            state.names[files[i]],
        ),
{
}

} // verus!
