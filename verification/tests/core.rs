//! The module and standalone-instance surface, exercised from outside.

use rudi::context::Context;
use rudi::instance::Payload;
use rudi::key::Key;
use rudi::module::Module;
use rudi::provider::{Color, Constructor, DynProvider, Scope};

// Type-identity tokens for the types these tests register.
const TY_A_I32: u64 = 101;
const TY_B_I32: u64 = 102;
const TY_I32: u64 = 1;
const TY_BOOL: u64 = 2;
const TY_STR: u64 = 3;

fn transient_component(type_id: u64, tag: u64, color: Color) -> DynProvider {
    DynProvider::define(
        Key::new(type_id),
        Scope::Transient,
        color,
        false,
        Constructor::Build { tag, deps: Vec::new() },
        Vec::new(),
    )
}

#[test]
fn generic_provider() {
    let my_module = Module {
        id: 1,
        providers: vec![transient_component(TY_A_I32, 11, Color::Sync)],
        submodules: Vec::new(),
    };

    let cx = Context::create(vec![my_module]).unwrap();
    assert!(cx.get_provider(&Key::new(TY_A_I32)).is_some());
}

fn generic_module_for(type_id: u64) -> Module {
    Module {
        id: 2,
        providers: vec![transient_component(type_id, 12, Color::Sync)],
        submodules: Vec::new(),
    }
}

#[test]
fn generic_module() {
    let cx = Context::create(vec![generic_module_for(TY_A_I32)]).unwrap();
    assert!(cx.get_provider(&Key::new(TY_A_I32)).is_some());
}

#[test]
fn generic_provider_async() {
    let my_module = Module {
        id: 3,
        providers: vec![transient_component(TY_B_I32, 13, Color::Async)],
        submodules: Vec::new(),
    };

    let cx = Context::create(vec![my_module]).unwrap();
    assert!(cx.get_provider(&Key::new(TY_B_I32)).is_some());
}

fn generic_async_module_for(type_id: u64) -> Module {
    Module {
        id: 4,
        providers: vec![transient_component(type_id, 14, Color::Async)],
        submodules: Vec::new(),
    }
}

#[test]
fn generic_module_async() {
    let cx = Context::create(vec![generic_async_module_for(TY_B_I32)]).unwrap();
    assert!(cx.get_provider(&Key::new(TY_B_I32)).is_some());
}

#[test]
fn standalone_variables() {
    let mut cx = Context::options()
        .instance(Key::new(TY_I32), Payload::Int(42))
        .instance(Key::new(TY_BOOL), Payload::Bool(true))
        .instance(Key::new(TY_STR), Payload::Text("Hello world".to_string()))
        .create(Vec::new())
        .unwrap();

    assert_eq!(cx.singletons_len(), 0);

    assert_eq!(cx.try_resolve(&Key::new(TY_I32)).unwrap().payload, Payload::Int(42));
    assert!(matches!(
        cx.try_resolve(&Key::new(TY_BOOL)).unwrap().payload,
        Payload::Bool(true)
    ));
    assert_eq!(
        cx.try_resolve(&Key::new(TY_STR)).unwrap().payload,
        Payload::Text("Hello world".to_string())
    );

    assert_eq!(cx.singletons_len(), 3);

    for key in cx.singleton_keys() {
        let provider = cx.get_provider(&key).unwrap();
        assert!(provider.definition().scope == Scope::Singleton);
        assert!(!provider.eager_create());
    }
}
