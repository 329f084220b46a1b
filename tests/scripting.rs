use tilegrid::level::EntityId;
use tilegrid::registry::{EntityEvent, EventSet, Global, LuaEntity, Owner, Registration};
use tilegrid::vars::Vars;

#[test]
fn event_names() {
    assert_eq!(EntityEvent::from_string("on_init"), Ok(EntityEvent::OnInit));
    assert_eq!(EntityEvent::from_string("on_update"), Ok(EntityEvent::OnUpdate));
    assert_eq!(EntityEvent::from_string("on_tick"), Err("on_tick"));
    assert_eq!(EntityEvent::from_string(""), Err(""));
    assert_eq!(EntityEvent::from_string("on_init "), Err("on_init "));
}

#[test]
fn ids_are_shared_and_increasing() {
    let mut g = Global::init();
    assert!(g.is_debug);
    assert_eq!(g.next_id(), 1);
    let w = g.watch("hp".to_string());
    assert_eq!(w, 2);
    let r = g.register(Owner::World, &vec![EntityEvent::OnUpdate]);
    assert_eq!(r, 3);
    let mut e = LuaEntity::new(EntityId(11));
    let id = e.register(&mut g, &vec![EntityEvent::OnInit, EntityEvent::OnUpdate]);
    assert_eq!(id, 4);
    assert_eq!(g.counter, 4);
}

#[test]
fn watchers_see_old_then_new_value() {
    let mut g = Global::init();
    let mut vars: Vars<i64> = Vars::new();
    let hp = "hp".to_string();
    let first = vars.begin_set(&g, hp.clone(), 10);
    assert!(first.watchers.is_empty());
    vars.commit(first);
    let a = g.watch(hp.clone());
    let b = g.watch(hp.clone());
    let pending = vars.begin_set(&g, hp.clone(), 5);
    assert_eq!(pending.watchers, vec![a, b]);
    let mut heard = Vec::new();
    for id in pending.watchers.iter() {
        heard.push((*id, *vars.get(&hp).unwrap(), pending.value));
    }
    assert_eq!(heard, vec![(a, 10, 5), (b, 10, 5)]);
    assert_eq!(vars.get(&hp), Some(&10));
    vars.commit(pending);
    assert_eq!(vars.get(&hp), Some(&5));
    assert_eq!(vars.get(&"mp".to_string()), None);
}

#[test]
fn watchers_fire_even_when_value_is_unchanged() {
    let mut g = Global::init();
    let mut vars: Vars<i64> = Vars::new();
    let key = "gold".to_string();
    let w = g.watch(key.clone());
    let p = vars.begin_set(&g, key.clone(), 3);
    vars.commit(p);
    let p = vars.begin_set(&g, key.clone(), 3);
    assert_eq!(p.watchers, vec![w]);
}

#[test]
fn unwatch_twice_is_a_no_op() {
    let mut g = Global::init();
    let key = "hp".to_string();
    let a = g.watch(key.clone());
    let b = g.watch(key.clone());
    let c = g.watch("mp".to_string());
    g.unwatch(&key, a);
    assert_eq!(g.watchers_of(&key), vec![b]);
    g.unwatch(&key, a);
    assert_eq!(g.watchers_of(&key), vec![b]);
    g.unwatch(&key, b);
    assert_eq!(g.watchers_of(&key), Vec::<usize>::new());
    // the emptied list stays in place
    assert_eq!(g.var_watchers.len(), 2);
    assert_eq!(g.watchers_of(&"mp".to_string()), vec![c]);
    // unknown keys and ids change nothing
    g.unwatch(&"nope".to_string(), c);
    g.unwatch(&"mp".to_string(), 999);
    assert_eq!(g.watchers_of(&"mp".to_string()), vec![c]);
    assert_eq!(g.var_watchers.len(), 2);
}

#[test]
fn handlers_run_in_registration_order() {
    let mut g = Global::init();
    let mut e = LuaEntity::new(EntityId(1));
    let mut other = LuaEntity::new(EntityId(2));
    let first = e.register(&mut g, &vec![EntityEvent::OnUpdate]);
    let _ = other.register(&mut g, &vec![EntityEvent::OnUpdate]);
    let both = e.register(&mut g, &vec![EntityEvent::OnInit, EntityEvent::OnUpdate]);
    let world = g.register(Owner::World, &vec![EntityEvent::OnUpdate]);
    assert_eq!(g.handlers_for(Owner::Entity(EntityId(1)), EntityEvent::OnUpdate), vec![first, both]);
    assert_eq!(g.handlers_for(Owner::Entity(EntityId(1)), EntityEvent::OnInit), vec![both]);
    assert_eq!(g.handlers_for(Owner::World, EntityEvent::OnUpdate), vec![world]);
    assert_eq!(g.handlers_for(Owner::World, EntityEvent::OnInit), Vec::<usize>::new());
    assert_eq!(
        g.handlers[2],
        Registration { owner: Owner::Entity(EntityId(1)), event: EntityEvent::OnInit, id: both }
    );
    assert!(e.events_registered.contains(EntityEvent::OnInit));
    assert!(e.events_registered.contains(EntityEvent::OnUpdate));
    assert!(!other.events_registered.contains(EntityEvent::OnInit));
    assert_eq!(other.events_registered, EventSet { on_init: false, on_update: true });
}

#[test]
fn empty_registration_still_draws_an_id() {
    let mut g = Global::init();
    let mut e = LuaEntity::new(EntityId(1));
    assert_eq!(e.register(&mut g, &Vec::new()), 1);
    assert!(g.handlers.is_empty());
    assert_eq!(e.events_registered, EventSet::empty());
}

#[test]
fn sync_takes_host_state_and_never_lowers_counter() {
    let mut script_side = Global::init();
    script_side.watch("hp".to_string());
    script_side.watch("hp".to_string());
    let mut host = Global::init();
    host.turn_count = 12;
    host.is_debug = false;
    script_side.sync_from(&host);
    assert_eq!(script_side.turn_count, 12);
    assert!(!script_side.is_debug);
    assert_eq!(script_side.counter, 2);
    assert_eq!(script_side.watchers_of(&"hp".to_string()), vec![1, 2]);
    host.counter = 40;
    script_side.sync_from(&host);
    assert_eq!(script_side.counter, 40);
    assert_eq!(script_side.watch("hp".to_string()), 41);
}

#[test]
fn event_set_insert_and_contains() {
    let mut s = EventSet::default();
    assert!(!s.contains(EntityEvent::OnInit));
    s.insert(EntityEvent::OnUpdate);
    assert!(s.contains(EntityEvent::OnUpdate));
    assert!(!s.contains(EntityEvent::OnInit));
    s.insert(EntityEvent::OnUpdate);
    assert_eq!(s, EventSet { on_init: false, on_update: true });
}
