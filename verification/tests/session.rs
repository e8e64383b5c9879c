use hurlin::failure::{RequestError, StatusCode};
use hurlin::imports::{
    answer_cached, HurlinImportArgs, HurlinImportQuery, ImportDecision,
};
use hurlin::intern::Interner;
use hurlin::keys::{AsyncKey, HurlinKey, TaskId};
use hurlin::paths::PathDir;
use hurlin::replies::{await_response, noise, noise_response, Outcome, Response, TypedBody};
use hurlin::state::rpc::{HurlinRPC, RpcPath};
use hurlin::state::waits::AwaitDecision;
use hurlin::state::HurlinState;
use hurlin::table::Table;

const KEY: &str = "0123456789abcdef";

type State = HurlinState<u32, u32>;

fn session() -> State {
    HurlinState::new(
        HurlinKey::validate(KEY).ok().unwrap(),
        4000,
        vec!["--test".to_string()],
        PathDir::new("/cap".to_string()),
    )
}

/// A session whose root task runs `root.hurl`.
fn rooted() -> (State, TaskId, usize) {
    let mut state = session();
    let root = state.get_or_intern("root.hurl").unwrap();
    let task = state.start_task(root, &vec![], 1).unwrap();
    (state, task, root)
}

/// Claims `file`, to run it into the cache.
fn claim(state: &mut State, file: usize) {
    assert!(matches!(
        state.cache_entry_for(file, HurlinImportArgs::Normal, 0),
        ImportDecision::Run
    ));
}

fn id(text: &str) -> TaskId {
    TaskId::validate(text).ok().unwrap()
}

fn mime(response: &Response) -> Option<&str> {
    let bytes = response.content_type.as_deref();
    bytes.map(|bytes| std::str::from_utf8(bytes).unwrap())
}

fn bytes(s: &str) -> Vec<u8> {
    s.as_bytes().to_vec()
}

fn text(s: &str) -> String {
    s.to_string()
}

#[test]
fn a_new_session_has_called_nothing() {
    let state = session();
    assert_eq!(state.key().as_str(), KEY);
    assert_eq!(state.port(), 4000);
    assert_eq!(state.hurl_calls(), 0);
}

#[test]
fn names_are_known_by_one_number_each() {
    let mut names = Interner::new();
    let a = names.get_or_intern("a.hurl").unwrap();
    let b = names.get_or_intern("sub/b.hurl").unwrap();
    assert_ne!(a, b);
    assert_eq!(names.get_or_intern("a.hurl"), Some(a));
    assert_eq!(names.resolve(a), "a.hurl");
    assert_eq!(names.resolve(b), "sub/b.hurl");
    let empty = names.get_or_intern("").unwrap();
    assert_eq!(names.resolve(empty), "");
}

#[test]
fn tables_hold_one_value_for_each_key() {
    let mut table: Table<TaskId, u32> = Table::new();
    let (a, b) = (id("000000000000000a"), id("000000000000000b"));
    assert!(table.get(&a).is_none());
    table.insert(a, 1);
    table.insert(b, 2);
    table.insert(a, 3);
    assert_eq!(table.get(&a), Some(&3));
    assert_eq!(table.get(&b), Some(&2));
    assert!(table.contains_key(&b));
    assert_eq!(table.remove(&a), Some(3));
    assert_eq!(table.remove(&a), None);
    assert_eq!(table.get(&b), Some(&2));
}

#[test]
fn requests_of_running_tasks_pass() {
    let (state, task, _) = rooted();
    let path = RpcPath::WithArgument(text(KEY), task.to_string(), text("./a.hurl"));
    let rpc = HurlinRPC::from_request_parts(path, &state).ok().unwrap();
    assert!(rpc.0 == task);
    assert_eq!(rpc.argument(), "./a.hurl");
    let path = RpcPath::Plain(text(KEY), task.to_string());
    let rpc = HurlinRPC::from_request_parts(path, &state).ok().unwrap();
    assert!(rpc.0 == task);
    assert_eq!(rpc.1, None);
    assert_eq!(rpc.argument(), "");
}

#[test]
fn other_requests_are_refused() {
    let (state, task, _) = rooted();
    let refused = |path| HurlinRPC::from_request_parts(path, &state).err().unwrap();
    let plain = |key: &str, task: &str| RpcPath::Plain(text(key), text(task));
    assert!(matches!(refused(RpcPath::Other), RequestError::BadPath));
    assert!(matches!(
        refused(plain("nonsense", "nonsense")),
        RequestError::BadHurlinKey
    ));
    assert!(matches!(
        refused(plain("0123456789abcdee", "nonsense")),
        RequestError::BadTaskId
    ));
    let error = refused(plain("0123456789abcdee", task.as_str()));
    assert!(matches!(error, RequestError::WrongHurlinKey));
    assert_eq!(error.status(), StatusCode::Forbidden);
    let other = if task.as_str() == KEY { "0123456789abcdee" } else { KEY };
    let error = refused(plain(KEY, other));
    assert!(matches!(error, RequestError::UnknownTask));
    assert_eq!(error.status(), StatusCode::BadRequest);
}

#[test]
fn a_task_makes_requests_only_while_it_runs() {
    let (mut state, task, root) = rooted();
    let path = || RpcPath::Plain(text(KEY), task.to_string());
    assert!(HurlinRPC::from_request_parts(path(), &state).is_ok());
    claim(&mut state, root);
    assert!(state
        .finish_task(task, root, HurlinImportArgs::Normal, true)
        .0
        .is_ok());
    assert!(matches!(
        HurlinRPC::from_request_parts(path(), &state),
        Err(RequestError::UnknownTask)
    ));
}

#[test]
fn the_query_of_an_import_says_how_to_treat_the_cache() {
    let query = |nocache: Option<&str>, rest: Vec<(String, String)>| {
        HurlinImportArgs::from_query(Some(HurlinImportQuery {
            nocache: nocache.map(String::from),
            rest,
        }))
    };
    assert_eq!(HurlinImportArgs::default(), HurlinImportArgs::Normal);
    assert_eq!(query(None, vec![]).ok(), Some(HurlinImportArgs::Normal));
    assert_eq!(query(Some(""), vec![]).ok(), Some(HurlinImportArgs::Nocache));
    let Err(RequestError::ExtraImportParameters(extra)) =
        query(Some(""), vec![(text("a"), text("1")), (text("b"), text("2"))])
    else {
        panic!("unknown parameters passed");
    };
    assert_eq!(extra, vec!["a", "b"]);
    assert!(matches!(
        HurlinImportArgs::from_query(None),
        Err(RequestError::BadImportQuery)
    ));
}

#[test]
fn tasks_have_keys_of_their_own() {
    let mut state = session();
    let file = state.get_or_intern("a.hurl").unwrap();
    assert!(state.fresh_task_id(0).is_none());
    let fresh = state.fresh_task_id(1).unwrap();
    assert!(state.register_task(fresh, file, &vec![]));
    assert!(!state.register_task(fresh, file, &vec![]));
    let other = state.start_task(file, &vec![], u64::MAX).unwrap();
    assert!(other != fresh);
    let free = id("0123456789abcdee");
    assert!(state.first_free_task_id(&vec![fresh, other, free]) == Some(free));
    assert!(state.first_free_task_id(&vec![fresh, other]).is_none());
    assert!(state.start_task(file, &vec![], 0).is_none());
}

#[test]
fn hurl_runs_the_file_of_a_task() {
    let (mut state, _, _) = rooted();
    let task = id("fedcba9876543210");
    let line = state.hurlin_spawn("/cap/a.hurl", "", vec![], &task);
    let at = |name: &str| {
        format!("hurlin-{name}=http://localhost:4000/{name}/0123456789abcdef/fedcba9876543210/")
    };
    assert_eq!(
        line,
        vec![
            text("--test"),
            text("--color"),
            text("--variable"),
            at("import"),
            text("--variable"),
            at("async"),
            text("--variable"),
            at("readfile"),
            text("--variable"),
            at("await"),
            text("--variable"),
            at("export"),
            text("--variable"),
            at("noise"),
            text("/cap/a.hurl"),
        ]
    );
    assert_eq!(state.hurl_calls(), 1);
}

#[test]
fn a_task_is_called_with_the_paths_of_its_file() {
    let mut state = session();
    let file = state.get_or_intern("sub/a.hurl").unwrap();
    let task = id("fedcba9876543210");
    let line = state.task_call(file, &task).unwrap();
    assert_eq!(line, state.hurlin_spawn("/cap/sub/a.hurl", "sub", vec![], &task));
    assert_eq!(line.last().unwrap(), "/cap/sub/a.hurl");
    assert!(line.contains(&text(
        "hurlin-import=http://localhost:4000/import/0123456789abcdef/fedcba9876543210/sub/"
    )));
    assert_eq!(state.hurl_calls(), 2);
    let top = state.get_or_intern("/").unwrap();
    assert!(state.task_call(top, &task).is_none());
    assert_eq!(state.hurl_calls(), 2);
}

#[test]
fn files_are_found_from_outside_and_from_inside() {
    let mut state = session();
    let file = state.get_or_intern("sub/a.hurl").unwrap();
    assert_eq!(state.root_path(file), "/cap/sub/a.hurl");
    assert_eq!(
        state.task_paths(file),
        (text("/cap/sub/a.hurl"), Some(text("sub")))
    );
    let file = state.get_or_intern("a.hurl").unwrap();
    assert_eq!(state.task_paths(file), (text("/cap/a.hurl"), Some(text(""))));
}

#[test]
fn an_import_starts_from_the_importing_task() {
    let (mut state, task, root) = rooted();
    let info = state.imports(task, "./a.hurl", Some("a.hurl")).ok().unwrap();
    assert_eq!(info.call_stack, vec![root]);
    assert_eq!(info.task_name, root);
    assert_eq!(state.root_path(info.imports), "/cap/a.hurl");
    let child = state.start_task(info.imports, &info.call_stack, u64::MAX).unwrap();
    let below = state.imports(child, "./b.hurl", Some("b.hurl")).ok().unwrap();
    assert_eq!(below.call_stack, vec![root, info.imports]);
    assert_eq!(below.task_name, info.imports);
    let again = state.callstack_info(task, "a.hurl", Some("a.hurl")).ok().unwrap();
    assert_eq!(again.imports, info.imports);
}

#[test]
fn imports_of_tasks_that_are_gone_are_refused() {
    let (mut state, task, root) = rooted();
    assert!(state
        .finish_task(task, root, HurlinImportArgs::Nocache, true)
        .0
        .is_ok());
    let error = state.imports(task, "a.hurl", None).err().unwrap();
    assert!(matches!(error, RequestError::NotRunning));
    assert_eq!(error.status(), StatusCode::Unauthorized);
}

#[test]
fn imports_from_outside_the_capped_directory_are_refused() {
    let (mut state, task, _) = rooted();
    let error = state.imports(task, "nowhere.hurl", None).err().unwrap();
    assert_eq!(error.status(), StatusCode::InternalServerError);
    let RequestError::NotCanonical(path) = error else {
        panic!("another error");
    };
    assert_eq!(path, "/cap/nowhere.hurl");
}

#[test]
fn import_cycles_are_refused() {
    let (mut state, task, _) = rooted();
    let a = state.imports(task, "a.hurl", Some("a.hurl")).ok().unwrap();
    let a_task = state.start_task(a.imports, &a.call_stack, u64::MAX).unwrap();
    let b = state.imports(a_task, "b.hurl", Some("b.hurl")).ok().unwrap();
    let b_task = state.start_task(b.imports, &b.call_stack, u64::MAX).unwrap();
    let error = state.imports(b_task, "root.hurl", Some("root.hurl")).err().unwrap();
    assert_eq!(error.status(), StatusCode::FailedDependency);
    let RequestError::ImportCycle { imported, chain } = error else {
        panic!("another error");
    };
    assert_eq!(imported, "/cap/root.hurl");
    assert_eq!(chain, vec!["/cap/b.hurl", "/cap/a.hurl", "/cap/root.hurl"]);
    let error = state.detect_import_cycle(b.imports, b.imports).err().unwrap();
    let RequestError::ImportCycle { chain, .. } = error else {
        panic!("another error");
    };
    assert_eq!(chain, vec!["/cap/b.hurl"]);
    assert!(state.detect_import_cycle(a.task_name, b.imports).is_ok());
}

#[test]
fn an_import_mirrors_what_was_exported() {
    let (mut state, task, root) = rooted();
    assert!(state
        .exports(task, Some(bytes("text/plain")), b"first".to_vec())
        .is_ok());
    assert!(state
        .exports(task, Some(bytes("application/json")), b"{}".to_vec())
        .is_ok());
    claim(&mut state, root);
    let response = state
        .finish_task(task, root, HurlinImportArgs::Normal, true)
        .0
        .ok()
        .unwrap();
    assert_eq!(mime(&response), Some("application/json"));
    assert_eq!(response.body, b"{}");
    let ImportDecision::Reply(cached) = state.cache_entry_for(root, HurlinImportArgs::Normal, 0)
    else {
        panic!("not cached");
    };
    assert_eq!(mime(&cached), Some("application/json"));
    assert_eq!(cached.body, b"{}");
}

#[test]
fn an_import_of_a_file_without_exports_is_empty() {
    let (mut state, task, root) = rooted();
    claim(&mut state, root);
    let response = state
        .finish_task(task, root, HurlinImportArgs::Normal, true)
        .0
        .ok()
        .unwrap();
    assert_eq!(mime(&response), None);
    assert!(response.body.is_empty());
    let ImportDecision::Reply(cached) = state.cache_entry_for(root, HurlinImportArgs::Normal, 0)
    else {
        panic!("not cached");
    };
    assert_eq!(mime(&cached), None);
    assert!(cached.body.is_empty());
}

#[test]
fn a_failed_task_is_a_failed_dependency() {
    let (mut state, task, root) = rooted();
    assert!(state
        .exports(task, Some(bytes("text/plain")), b"lost".to_vec())
        .is_ok());
    claim(&mut state, root);
    let error = state
        .finish_task(task, root, HurlinImportArgs::Normal, false)
        .0
        .err()
        .unwrap();
    assert_eq!(error.status(), StatusCode::FailedDependency);
    let RequestError::TaskFailed { task: failed, file } = error else {
        panic!("another error");
    };
    assert!(failed == task);
    assert_eq!(file, "/cap/root.hurl");
    assert!(matches!(
        state.cache_entry_for(root, HurlinImportArgs::Normal, 0),
        ImportDecision::Refuse(StatusCode::FailedDependency)
    ));
    // the export went with the task
    let response = state
        .finish_task(task, root, HurlinImportArgs::Nocache, true)
        .0
        .ok()
        .unwrap();
    assert!(response.body.is_empty());
}

#[test]
fn imports_without_the_cache_leave_it_alone() {
    let (mut state, task, root) = rooted();
    assert!(state
        .finish_task(task, root, HurlinImportArgs::Nocache, true)
        .0
        .is_ok());
    assert!(matches!(
        state.cache_entry_for(root, HurlinImportArgs::Normal, 0),
        ImportDecision::Run
    ));
    assert!(matches!(
        state.cache_entry_for(root, HurlinImportArgs::Nocache, 0),
        ImportDecision::Run
    ));
}

#[test]
fn the_cache_answers_as_the_task_did() {
    let export = Ok(Some(TypedBody(vec![1], Some(bytes("a/b")))));
    let ImportDecision::Reply(response) = answer_cached(&export) else {
        panic!("no answer");
    };
    assert_eq!(mime(&response), Some("a/b"));
    assert_eq!(response.body, vec![1]);
    let ImportDecision::Reply(response) = answer_cached(&Ok(None)) else {
        panic!("no answer");
    };
    assert_eq!(mime(&response), None);
    assert!(response.body.is_empty());
    assert!(matches!(
        answer_cached(&Err(StatusCode::FailedDependency)),
        ImportDecision::Refuse(StatusCode::FailedDependency)
    ));
}

#[test]
fn cache_entries_stay() {
    let (mut state, task, root) = rooted();
    let a = state.imports(task, "a.hurl", Some("a.hurl")).ok().unwrap();
    let child = state.start_task(a.imports, &a.call_stack, u64::MAX).unwrap();
    assert!(state
        .exports(child, Some(bytes("text/plain")), b"a".to_vec())
        .is_ok());
    claim(&mut state, a.imports);
    assert!(state
        .finish_task(child, a.imports, HurlinImportArgs::Normal, true)
        .0
        .is_ok());
    let again = state.start_task(a.imports, &a.call_stack, u64::MAX).unwrap();
    assert!(state
        .finish_task(again, a.imports, HurlinImportArgs::Nocache, false)
        .0
        .is_err());
    claim(&mut state, root);
    assert!(state
        .finish_task(task, root, HurlinImportArgs::Normal, false)
        .0
        .is_err());
    let ImportDecision::Reply(cached) =
        state.cache_entry_for(a.imports, HurlinImportArgs::Normal, 0)
    else {
        panic!("not cached");
    };
    assert_eq!(cached.body, b"a");
}

#[test]
fn exports_of_one_task_are_not_those_of_another() {
    let (mut state, task, root) = rooted();
    let other = state.start_task(root, &vec![], u64::MAX).unwrap();
    assert!(state
        .exports(task, Some(bytes("text/plain")), b"mine".to_vec())
        .is_ok());
    let response = state
        .finish_task(other, root, HurlinImportArgs::Nocache, true)
        .0
        .ok()
        .unwrap();
    assert!(response.body.is_empty());
    let response = state
        .finish_task(task, root, HurlinImportArgs::Nocache, true)
        .0
        .ok()
        .unwrap();
    assert_eq!(response.body, b"mine");
}

#[test]
fn content_types_are_kept_as_they_came() {
    let (mut state, task, root) = rooted();
    assert!(state.exports(task, Some(vec![0x61, 0xe9]), b"x".to_vec()).is_ok());
    let (response, _) = state.finish_task(task, root, HurlinImportArgs::Nocache, true);
    let response = response.ok().unwrap();
    assert_eq!(response.content_type, Some(vec![0x61, 0xe9]));
    assert_eq!(response.body, b"x");
}

#[test]
fn exports_without_a_content_type_are_kept() {
    let (mut state, task, root) = rooted();
    assert!(state.exports(task, None, b"abc".to_vec()).is_ok());
    claim(&mut state, root);
    let (response, _) = state.finish_task(task, root, HurlinImportArgs::Normal, true);
    let response = response.ok().unwrap();
    assert_eq!(mime(&response), None);
    assert_eq!(response.body, b"abc");
    let ImportDecision::Reply(cached) = state.cache_entry_for(root, HurlinImportArgs::Normal, 0)
    else {
        panic!("not cached");
    };
    assert_eq!(mime(&cached), None);
    assert_eq!(cached.body, b"abc");
}

#[test]
fn large_exports_are_kept() {
    let (mut state, task, root) = rooted();
    let body = vec![7; 4_000_001];
    assert!(state.exports(task, Some(bytes("text/plain")), body.clone()).is_ok());
    let (response, _) = state.finish_task(task, root, HurlinImportArgs::Nocache, true);
    let response = response.ok().unwrap();
    assert_eq!(mime(&response), Some("text/plain"));
    assert!(response.body == body);
}

/// An answer with the body `body`.
fn reply(body: &str) -> Outcome {
    Ok(Response { content_type: Some(bytes("text/plain")), body: bytes(body) })
}

#[test]
fn results_are_awaited_once_and_by_the_task_that_asked() {
    let (mut state, task, root) = rooted();
    let other = state.start_task(root, &vec![], u64::MAX).unwrap();
    let key = state.get_unique_async_key(task, u64::MAX).unwrap();
    let second = state.get_unique_async_key(task, u64::MAX).unwrap();
    assert!(key != second);
    assert!(state.settle_wait(key, task, reply("first")).is_none());
    assert!(matches!(
        state.hurlin_await(other, key.as_str(), 5),
        Err(RequestError::UnclaimedAsyncKey)
    ));
    let Ok(AwaitDecision::Answer(Ok(first))) = state.hurlin_await(task, key.as_str(), 5) else {
        panic!("not answered");
    };
    assert_eq!(mime(&first), Some("text/plain"));
    assert_eq!(first.body, b"first");
    assert!(matches!(
        state.hurlin_await(task, key.as_str(), 5),
        Err(RequestError::UnclaimedAsyncKey)
    ));
    assert!(matches!(
        state.hurlin_await(task, "", 5),
        Err(RequestError::BadAsyncKey)
    ));
    assert!(state
        .settle_wait(second, task, Err(StatusCode::FailedDependency))
        .is_none());
    assert!(matches!(
        state.hurlin_await(task, second.as_str(), 6),
        Ok(AwaitDecision::Answer(Err(StatusCode::FailedDependency)))
    ));
}

#[test]
fn an_await_waits_for_the_result() {
    let (mut state, task, _) = rooted();
    let key = state.get_unique_async_key(task, u64::MAX).unwrap();
    let other = state.get_unique_async_key(task, u64::MAX).unwrap();
    assert!(matches!(
        state.hurlin_await(task, key.as_str(), 5),
        Ok(AwaitDecision::Wait)
    ));
    assert!(matches!(
        state.hurlin_await(task, key.as_str(), 6),
        Err(RequestError::UnclaimedAsyncKey)
    ));
    assert!(state.settle_wait(other, task, reply("other")).is_none());
    let (waiter, outcome) = state.settle_wait(key, task, reply("mine")).unwrap();
    assert_eq!(waiter, 5);
    assert_eq!(outcome.ok().unwrap().body, b"mine");
    assert!(state.settle_wait(key, task, reply("late")).is_none());
    let Ok(AwaitDecision::Answer(Ok(kept))) = state.hurlin_await(task, other.as_str(), 7) else {
        panic!("not answered");
    };
    assert_eq!(kept.body, b"other");
}

#[test]
fn drawn_keys_are_in_lower_case() {
    let (mut state, task, _) = rooted();
    let key = state.get_unique_async_key(task, u64::MAX).unwrap();
    for text in [key.as_str(), task.as_str()] {
        assert_eq!(text.len(), 16);
        assert!(text.chars().all(|c| matches!(c, '0'..='9' | 'a'..='f')));
    }
}

#[test]
fn two_imports_of_one_path_run_its_file_once() {
    let (mut state, task, root) = rooted();
    let other = state.start_task(root, &vec![], u64::MAX).unwrap();
    let first = state.imports(task, "./a.hurl", Some("a.hurl")).ok().unwrap();
    let second = state.imports(other, "x/../a.hurl", Some("a.hurl")).ok().unwrap();
    assert_eq!(first.imports, second.imports);
    claim(&mut state, first.imports);
    assert!(matches!(
        state.cache_entry_for(second.imports, HurlinImportArgs::Normal, 4),
        ImportDecision::Wait
    ));
    let run = state.start_task(first.imports, &first.call_stack, u64::MAX).unwrap();
    let (ended, woken) = state.finish_task(run, first.imports, HurlinImportArgs::Normal, false);
    assert_eq!(ended.err().unwrap().status(), StatusCode::FailedDependency);
    assert_eq!(woken, vec![4]);
    assert!(matches!(
        state.cache_entry_for(second.imports, HurlinImportArgs::Normal, 4),
        ImportDecision::Refuse(StatusCode::FailedDependency)
    ));
}

#[test]
fn await_keys_are_drawn_until_one_is_free() {
    let (mut state, task, _) = rooted();
    assert!(state.fresh_async_key(task, 0).is_none());
    assert!(state.fresh_async_key(task, 1).is_some());
    assert!(state.get_unique_async_key(task, 0).is_none());
    let key = AsyncKey::validate(KEY).ok().unwrap();
    let free = AsyncKey::validate("0123456789abcdee").ok().unwrap();
    assert!(state.register_wait(key, task));
    assert!(!state.register_wait(key, task));
    assert!(state.first_free_async_key(task, &vec![key, free]) == Some(free));
    assert!(state.first_free_async_key(task, &vec![key, key]).is_none());
    // a key that is being awaited is in use
    assert!(matches!(state.hurlin_await(task, KEY, 1), Ok(AwaitDecision::Wait)));
    assert!(!state.register_wait(key, task));
    assert!(state.settle_wait(key, task, reply("done")).is_some());
    assert!(state.register_wait(key, task));
}

#[test]
fn imports_of_a_running_file_wait_for_it() {
    let (mut state, task, root) = rooted();
    let other = state.get_or_intern("other.hurl").unwrap();
    claim(&mut state, root);
    for waker in [1, 2] {
        assert!(matches!(
            state.cache_entry_for(root, HurlinImportArgs::Normal, waker),
            ImportDecision::Wait
        ));
    }
    claim(&mut state, other);
    assert!(matches!(
        state.cache_entry_for(root, HurlinImportArgs::Nocache, 3),
        ImportDecision::Run
    ));
    assert!(state
        .exports(task, Some(bytes("text/plain")), b"shared".to_vec())
        .is_ok());
    let (first, woken) = state.finish_task(task, root, HurlinImportArgs::Normal, true);
    assert_eq!(first.ok().unwrap().body, b"shared");
    assert_eq!(woken, vec![1, 2]);
    for waker in woken {
        let ImportDecision::Reply(second) =
            state.cache_entry_for(root, HurlinImportArgs::Normal, waker)
        else {
            panic!("not answered");
        };
        assert_eq!(mime(&second), Some("text/plain"));
        assert_eq!(second.body, b"shared");
    }
}

#[test]
fn a_file_that_is_given_up_is_run_by_the_next() {
    let (mut state, task, root) = rooted();
    assert!(state.give_up(root).is_empty());
    claim(&mut state, root);
    assert!(matches!(
        state.cache_entry_for(root, HurlinImportArgs::Normal, 7),
        ImportDecision::Wait
    ));
    assert_eq!(state.give_up(root), vec![7]);
    claim(&mut state, root);
    assert!(state
        .finish_task(task, root, HurlinImportArgs::Normal, true)
        .1
        .is_empty());
    assert!(state.give_up(root).is_empty());
    assert!(matches!(
        state.cache_entry_for(root, HurlinImportArgs::Normal, 0),
        ImportDecision::Reply(_)
    ));
}

#[test]
fn files_are_read_without_a_content_type() {
    let state = session();
    let response = state.readfile("a.txt", Some(b"abc".to_vec())).ok().unwrap();
    assert_eq!(mime(&response), None);
    assert_eq!(response.body, b"abc");
    let RequestError::NotCanonical(path) = state.readfile("a.txt", None).err().unwrap() else {
        panic!("another error");
    };
    assert_eq!(path, "/cap/a.txt");
}

#[test]
fn a_started_task_is_answered_with_its_key() {
    let key = AsyncKey::validate(KEY).ok().unwrap();
    let response = await_response(&key);
    assert_eq!(mime(&response), Some("application/json"));
    assert_eq!(response.body, b"{\"await\":\"0123456789abcdef\"}");
}

#[test]
fn noise_is_sixteen_random_digits() {
    let response = noise_response([0xde, 0xad, 0xbe, 0xef, 0, 1, 2, 255]);
    assert_eq!(mime(&response), Some("application/json"));
    assert_eq!(response.body, b"{\"noise\":\"deadbeef000102ff\"}");
    let (a, b, c) = (noise(), noise(), noise());
    assert_eq!(a.body.len(), b"{\"noise\":\"deadbeef000102ff\"}".len());
    assert!(!(a.body == b.body && b.body == c.body));
}
