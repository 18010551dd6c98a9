//! Scope policy, cycle detection, overrides, binds, eager creation and
//! the error taxonomy, exercised end to end.

use rudi::context::Context;
use rudi::errors::ResolveError;
use rudi::instance::Payload;
use rudi::key::Key;
use rudi::module::{flatten, Module};
use rudi::provider::{Bind, Color, Constructor, DynProvider, Scope};

fn component(
    type_id: u64,
    scope: Scope,
    color: Color,
    eager: bool,
    tag: u64,
    deps: Vec<Key>,
) -> DynProvider {
    DynProvider::define(
        Key::new(type_id),
        scope,
        color,
        eager,
        Constructor::Build { tag, deps },
        Vec::new(),
    )
}

#[test]
fn singleton_resolved_twice_is_shared() {
    let mut cx = Context::options()
        .provider(component(10, Scope::Singleton, Color::Sync, false, 70, Vec::new()))
        .create(Vec::new())
        .unwrap();

    let first = cx.try_resolve(&Key::new(10)).unwrap();
    let second = cx.try_resolve(&Key::new(10)).unwrap();
    assert_eq!(first.serial, second.serial);
    assert_eq!(first.tag, 70);
    // The constructor ran exactly once: the cache served the second call.
    assert_eq!(cx.build_log().as_slice(), &[70]);
}

#[test]
fn transient_resolved_twice_is_independent() {
    let mut cx = Context::options()
        .provider(component(11, Scope::Transient, Color::Sync, false, 71, Vec::new()))
        .create(Vec::new())
        .unwrap();

    let first = cx.try_resolve(&Key::new(11)).unwrap();
    let second = cx.try_resolve(&Key::new(11)).unwrap();
    assert_ne!(first.serial, second.serial);
    assert_eq!(cx.build_log().as_slice(), &[71, 71]);
    assert_eq!(cx.singletons_len(), 0);
}

#[test]
fn single_owner_second_resolution_fails() {
    let mut cx = Context::options()
        .provider(component(12, Scope::SingleOwner, Color::Sync, false, 72, Vec::new()))
        .create(Vec::new())
        .unwrap();

    assert!(cx.try_resolve(&Key::new(12)).is_ok());
    let second = cx.try_resolve(&Key::new(12));
    assert!(matches!(second, Err(ResolveError::AlreadyConsumed(_))));
}

#[test]
fn self_dependency_fails_with_cycle_and_context_stays_usable() {
    let mut cx = Context::options()
        .provider(component(13, Scope::Singleton, Color::Sync, false, 73, vec![Key::new(13)]))
        .instance(Key::new(14), Payload::Int(5))
        .create(Vec::new())
        .unwrap();

    match cx.try_resolve(&Key::new(13)) {
        Err(ResolveError::Cycle(stack)) => {
            assert_eq!(stack.len(), 2);
            assert_eq!(stack[0].type_id, 13);
            assert_eq!(stack[1].type_id, 13);
        }
        other => panic!("expected a cycle error, got {:?}", other),
    }
    // The stack was popped on the failure path: unrelated keys resolve.
    assert_eq!(cx.try_resolve(&Key::new(14)).unwrap().payload, Payload::Int(5));
}

#[test]
fn transitive_cycle_is_detected() {
    let mut cx = Context::options()
        .provider(component(15, Scope::Transient, Color::Sync, false, 74, vec![Key::new(16)]))
        .provider(component(16, Scope::Transient, Color::Sync, false, 75, vec![Key::new(15)]))
        .create(Vec::new())
        .unwrap();

    match cx.try_resolve(&Key::new(15)) {
        Err(ResolveError::Cycle(stack)) => {
            assert_eq!(stack.len(), 3);
            assert_eq!(stack[0].type_id, 15);
            assert_eq!(stack[1].type_id, 16);
            assert_eq!(stack[2].type_id, 15);
        }
        other => panic!("expected a cycle error, got {:?}", other),
    }
}

#[test]
fn shared_submodule_registers_once() {
    let shared = Module {
        id: 30,
        providers: vec![component(17, Scope::Transient, Color::Sync, false, 76, Vec::new())],
        submodules: Vec::new(),
    };
    let left = Module { id: 31, providers: Vec::new(), submodules: vec![30] };
    let right = Module { id: 32, providers: Vec::new(), submodules: vec![30] };

    let defs = vec![left, right, shared];
    let flat = flatten(&defs);
    let occurrences = flat.iter().filter(|rm| rm.id == 30).count();
    assert_eq!(occurrences, 1);
    // First-encounter depth-first order: left, its shared sub, then right.
    let ids: Vec<u64> = flat.iter().map(|rm| rm.id).collect();
    assert_eq!(ids, vec![31, 30, 32]);
}

#[test]
fn later_registration_overrides_earlier() {
    let mut cx = Context::options()
        .provider(component(18, Scope::Transient, Color::Sync, false, 77, Vec::new()))
        .provider(component(18, Scope::Transient, Color::Sync, false, 88, Vec::new()))
        .create(Vec::new())
        .unwrap();

    let built = cx.try_resolve(&Key::new(18)).unwrap();
    assert_eq!(built.tag, 88);
}

#[test]
fn module_provider_overrides_seeded_instance() {
    let module = Module {
        id: 40,
        providers: vec![component(19, Scope::Transient, Color::Sync, false, 78, Vec::new())],
        submodules: Vec::new(),
    };
    let mut cx = Context::options()
        .instance(Key::new(19), Payload::Int(1))
        .create(vec![module])
        .unwrap();

    let built = cx.try_resolve(&Key::new(19)).unwrap();
    assert_eq!(built.tag, 78);
    assert_eq!(built.payload, Payload::Unit);
}

#[test]
fn standalone_instances_round_trip() {
    let mut cx = Context::options()
        .instance(Key::new(20), Payload::Int(42))
        .instance(Key::new(21), Payload::Bool(true))
        .create(Vec::new())
        .unwrap();

    assert_eq!(cx.try_resolve(&Key::new(20)).unwrap().payload, Payload::Int(42));
    assert_eq!(cx.try_resolve(&Key::new(21)).unwrap().payload, Payload::Bool(true));
    assert_eq!(cx.singletons_len(), 2);
}

#[test]
fn binds_expose_one_build_under_two_keys() {
    let concrete = DynProvider::define(
        Key::new(22),
        Scope::Singleton,
        Color::Sync,
        false,
        Constructor::Build { tag: 79, deps: Vec::new() },
        vec![Bind { key: Key::new(23), tag: 80 }, Bind { key: Key::new(24), tag: 81 }],
    );
    let mut cx = Context::options().provider(concrete).create(Vec::new()).unwrap();

    let under_x = cx.try_resolve(&Key::new(23)).unwrap();
    let under_y = cx.try_resolve(&Key::new(24)).unwrap();
    assert_eq!(under_x.tag, 80);
    assert_eq!(under_y.tag, 81);
    // Both wrap the same concrete built value.
    assert_eq!(under_x.parts, under_y.parts);
    let source = cx.get_singleton(&Key::new(22)).unwrap();
    assert_eq!(under_x.parts, vec![source.serial]);
    // The concrete value was built once for both.
    assert_eq!(cx.build_log().as_slice(), &[79, 80, 81]);
}

#[test]
fn eager_singleton_is_built_during_create() {
    let cx = Context::options()
        .provider(component(25, Scope::Singleton, Color::Sync, true, 82, Vec::new()))
        .create(Vec::new())
        .unwrap();

    // The side effect of the constructor run is observed exactly once,
    // before any explicit resolve.
    assert_eq!(cx.build_log().as_slice(), &[82]);
    assert_eq!(cx.singletons_len(), 1);

    let mut cx = cx;
    let built = cx.try_resolve(&Key::new(25)).unwrap();
    assert_eq!(built.tag, 82);
    // Still exactly one construction.
    assert_eq!(cx.build_log().as_slice(), &[82]);
}

#[test]
fn eager_failure_aborts_create() {
    let result = Context::options()
        .provider(component(26, Scope::Singleton, Color::Sync, true, 83, vec![Key::new(99)]))
        .create(Vec::new());
    assert!(matches!(result, Err(ResolveError::NotFound(_))));
}

#[test]
fn missing_provider_is_not_found() {
    let mut cx = Context::options().create(Vec::new()).unwrap();
    let missing = cx.try_resolve(&Key::new(27));
    match missing {
        Err(ResolveError::NotFound(k)) => assert_eq!(k.type_id, 27),
        other => panic!("expected not-found, got {:?}", other),
    }
}

#[test]
fn async_provider_fails_on_sync_path() {
    let mut cx = Context::options()
        .provider(component(28, Scope::Transient, Color::Async, false, 84, Vec::new()))
        .create(Vec::new())
        .unwrap();

    assert!(matches!(cx.try_resolve(&Key::new(28)), Err(ResolveError::WrongColor(_))));
    // The superset path resolves synchronous and async providers alike.
    assert!(cx.try_resolve_async(&Key::new(28)).is_ok());
}

#[test]
fn sync_provider_resolves_on_async_path() {
    let mut cx = Context::options()
        .provider(component(29, Scope::Transient, Color::Sync, false, 85, Vec::new()))
        .create(Vec::new())
        .unwrap();
    assert!(cx.try_resolve_async(&Key::new(29)).is_ok());
}

#[test]
fn named_keys_are_distinct_registrations() {
    let mut cx = Context::options()
        .instance(Key::new(33), Payload::Int(1))
        .instance(Key::named(33, "other".to_string()), Payload::Int(2))
        .create(Vec::new())
        .unwrap();

    assert_eq!(cx.try_resolve(&Key::new(33)).unwrap().payload, Payload::Int(1));
    assert_eq!(
        cx.try_resolve(&Key::named(33, "other".to_string())).unwrap().payload,
        Payload::Int(2)
    );
}

#[test]
fn missing_submodule_definition_is_skipped() {
    let lonely = Module { id: 50, providers: Vec::new(), submodules: vec![99] };
    let flat = flatten(&vec![lonely]);
    let ids: Vec<u64> = flat.iter().map(|rm| rm.id).collect();
    assert_eq!(ids, vec![50]);
}

#[test]
fn dependencies_resolve_before_the_dependent() {
    let mut cx = Context::options()
        .provider(component(34, Scope::Singleton, Color::Sync, false, 90, Vec::new()))
        .provider(component(35, Scope::Transient, Color::Sync, false, 91, vec![Key::new(34)]))
        .create(Vec::new())
        .unwrap();

    let dependent = cx.try_resolve(&Key::new(35)).unwrap();
    let dependency = cx.get_singleton(&Key::new(34)).unwrap();
    assert_eq!(dependent.parts, vec![dependency.serial]);
    // Depth-first: the dependency's constructor completed first.
    assert_eq!(cx.build_log().as_slice(), &[90, 91]);
}

#[test]
fn error_descriptions_name_the_failure() {
    let err = ResolveError::NotFound(Key::new(1));
    assert_eq!(err.describe(), "no provider is registered under this key");
    let err = ResolveError::Cycle(vec![Key::new(1), Key::new(1)]);
    assert_eq!(err.describe(), "the key is already being constructed: dependency cycle");
}
