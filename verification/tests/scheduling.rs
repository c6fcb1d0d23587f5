//! Tests of the resource model, the tick scheduler and the output
//! dispatcher.

use turbo_audio::color::{serialize_colors, Color};
use turbo_audio::connections::{Connection, TcpConnection, UsbConnection};
use turbo_audio::effects::{
    apply_script_output, Effect, Moody, MoodySettings, RaindropSettings, RaindropState, Raindrops,
    ScriptEffect, ScriptSettings, Settings,
};
use turbo_audio::ledstrip::LedStrip;
use turbo_audio::registry::Registry;
use turbo_audio::scene::build_test_scene;
use turbo_audio::scheduler::{send_to_connection, tick, update_strip_effects, FatalError};

fn rgb(r: u8, g: u8, b: u8) -> Color {
    Color { r, g, b }
}

#[test]
fn serialization_is_three_bytes_per_led_in_order() {
    let colors = vec![rgb(1, 2, 3), rgb(4, 5, 6), rgb(255, 0, 128)];
    let bytes = serialize_colors(&colors);
    assert_eq!(bytes.len(), 3 * colors.len());
    assert_eq!(bytes, vec![1, 2, 3, 4, 5, 6, 255, 0, 128]);
    let empty: Vec<Color> = Vec::new();
    assert_eq!(serialize_colors(&empty).len(), 0);
}

#[test]
fn registry_lookup_insert_take() {
    let mut reg: Registry<i32> = Registry::new();
    assert!(reg.get(5).is_none());
    reg.insert(5, 50);
    reg.insert(6, 60);
    assert_eq!(*reg.get(5).unwrap(), 50);
    reg.insert(5, 55);
    assert_eq!(*reg.get(5).unwrap(), 55);
    assert_eq!(reg.len(), 2);
    assert_eq!(reg.take(5), Some(55));
    assert!(reg.get(5).is_none());
    assert_eq!(*reg.get(6).unwrap(), 60);
}

#[test]
fn ledstrip_refuses_bad_intervals() {
    let mut strip = LedStrip::default();
    assert!(strip.set_led_count(10));
    assert!(!strip.add_effect(1, 5, 4));
    assert!(!strip.add_effect(1, 0, 10));
    assert!(strip.add_effect(1, 0, 9));
    // Shrinking under an existing binding is refused, growing is fine.
    assert!(!strip.set_led_count(5));
    assert_eq!(strip.colors.len(), 10);
    assert!(strip.set_led_count(20));
    assert_eq!(strip.colors.len(), 20);
}

fn one_strip_scene(
    effect: Effect,
    effect_id: i32,
    setting: Settings,
    setting_id: i32,
) -> (Vec<LedStrip>, Registry<Effect>, Registry<Settings>, Registry<i32>, Registry<Connection>) {
    let mut settings: Registry<Settings> = Registry::new();
    let mut effects: Registry<Effect> = Registry::new();
    let mut links: Registry<i32> = Registry::new();
    let connections: Registry<Connection> = Registry::new();
    settings.insert(setting_id, setting);
    effects.insert(effect_id, effect);
    links.insert(effect_id, setting_id);
    let mut strip = LedStrip::default();
    assert!(strip.set_led_count(6));
    assert!(strip.add_effect(effect_id, 1, 4));
    (vec![strip], effects, settings, links, connections)
}

#[test]
fn moody_paints_only_its_interval() {
    let (mut strips, mut effects, settings, links, mut conns) = one_strip_scene(
        Effect::Moody(Moody { id: 10 }),
        10,
        Settings::Moody(MoodySettings { color: rgb(9, 8, 7) }),
        0,
    );
    assert!(tick(&mut strips, &mut effects, &settings, &links, &mut conns).is_ok());
    let colors = &strips[0].colors;
    assert_eq!(colors[0], rgb(0, 0, 0));
    for m in 1..=4 {
        assert_eq!(colors[m], rgb(9, 8, 7));
    }
    assert_eq!(colors[5], rgb(0, 0, 0));
}

#[test]
fn mismatched_settings_variant_is_fatal() {
    // A moody effect resolved to raindrop settings: the documented fatal
    // condition, surfaced as an error the embedding process aborts on.
    let (mut strips, mut effects, settings, links, mut conns) = one_strip_scene(
        Effect::Moody(Moody { id: 10 }),
        10,
        Settings::Raindrop(RaindropSettings { rain_speed: 1, drop_rate_pm: 100 }),
        0,
    );
    let r = tick(&mut strips, &mut effects, &settings, &links, &mut conns);
    assert_eq!(r, Err(FatalError::EffectSettingsMismatch { effect_id: 10 }));
}

#[test]
fn dangling_effect_and_setting_are_fatal() {
    let (mut strips, mut effects, settings, links, mut conns) = one_strip_scene(
        Effect::Moody(Moody { id: 10 }),
        10,
        Settings::Moody(MoodySettings { color: rgb(1, 1, 1) }),
        0,
    );
    // Bind the strip to an effect identifier nobody registered.
    assert!(strips[0].colors.len() > 0);
    let mut strip = strips.pop().unwrap();
    assert!(strip.add_effect(99, 0, 0));
    strips.push(strip);
    let r = tick(&mut strips, &mut effects, &settings, &links, &mut conns);
    assert_eq!(r, Err(FatalError::EffectNotFound { effect_id: 99 }));

    // An effect with no settings binding.
    let mut effects2: Registry<Effect> = Registry::new();
    effects2.insert(7, Effect::Moody(Moody { id: 7 }));
    let settings2: Registry<Settings> = Registry::new();
    let links2: Registry<i32> = Registry::new();
    let mut conns2: Registry<Connection> = Registry::new();
    let mut strip2 = LedStrip::default();
    assert!(strip2.set_led_count(3));
    assert!(strip2.add_effect(7, 0, 2));
    let mut strips2 = vec![strip2];
    let r2 = tick(&mut strips2, &mut effects2, &settings2, &links2, &mut conns2);
    assert_eq!(r2, Err(FatalError::SettingNotFound { effect_id: 7 }));
}

#[test]
fn script_binding_keeps_colors_and_host_applies_output() {
    let (mut strips, mut effects, settings, links, mut conns) = one_strip_scene(
        Effect::Script(ScriptEffect { id: 30 }),
        30,
        Settings::Script(ScriptSettings { params: String::from("{}") }),
        2,
    );
    assert!(tick(&mut strips, &mut effects, &settings, &links, &mut conns).is_ok());
    // The tick itself leaves a script interval untouched.
    for m in 0..6 {
        assert_eq!(strips[0].colors[m], rgb(0, 0, 0));
    }
    // The host's output lands only when it has the interval's shape.
    let strip = &mut strips[0];
    let wrong = vec![rgb(1, 1, 1); 3];
    assert!(!apply_script_output(&mut strip.colors, 1, 4, &wrong));
    assert_eq!(strip.colors[1], rgb(0, 0, 0));
    let right = vec![rgb(1, 1, 1), rgb(2, 2, 2), rgb(3, 3, 3), rgb(4, 4, 4)];
    assert!(apply_script_output(&mut strip.colors, 1, 4, &right));
    assert_eq!(strip.colors[0], rgb(0, 0, 0));
    assert_eq!(strip.colors[1], rgb(1, 1, 1));
    assert_eq!(strip.colors[4], rgb(4, 4, 4));
    assert_eq!(strip.colors[5], rgb(0, 0, 0));
}

#[test]
fn failed_send_unbinds_connection_and_drops_it() {
    let mut conns: Registry<Connection> = Registry::new();
    let mut dead = TcpConnection::new();
    dead.live = false;
    conns.insert(1, Connection::Tcp(dead));
    let mut strip = LedStrip::default();
    assert!(strip.set_led_count(2));
    strip.connection_id = Some(1);

    let r = send_to_connection(&mut strip, 1, &mut conns);
    assert!(r.is_ok());
    assert_eq!(strip.connection_id, None);
    assert!(conns.get(1).is_none());
    assert_eq!(conns.len(), 0);
}

#[test]
fn strip_survives_connection_loss_across_ticks() {
    let mut settings: Registry<Settings> = Registry::new();
    let mut effects: Registry<Effect> = Registry::new();
    let mut links: Registry<i32> = Registry::new();
    let mut conns: Registry<Connection> = Registry::new();
    settings.insert(0, Settings::Moody(MoodySettings { color: rgb(5, 5, 5) }));
    effects.insert(10, Effect::Moody(Moody { id: 10 }));
    links.insert(10, 0);
    let mut dead = TcpConnection::new();
    dead.live = false;
    conns.insert(1, Connection::Tcp(dead));
    let mut strip = LedStrip::default();
    assert!(strip.set_led_count(4));
    assert!(strip.add_effect(10, 0, 3));
    strip.connection_id = Some(1);
    let mut strips = vec![strip];

    // First tick: effects run, the dead connection is unbound and gone.
    assert!(tick(&mut strips, &mut effects, &settings, &links, &mut conns).is_ok());
    assert_eq!(strips[0].connection_id, None);
    assert!(conns.get(1).is_none());
    assert_eq!(strips[0].colors[0], rgb(5, 5, 5));

    // Later ticks keep running the effects with no dispatch target.
    assert!(tick(&mut strips, &mut effects, &settings, &links, &mut conns).is_ok());
    assert_eq!(strips[0].connection_id, None);
    assert_eq!(conns.len(), 0);
}

#[test]
fn live_send_queues_the_serialized_frame() {
    let mut conns: Registry<Connection> = Registry::new();
    conns.insert(1, Connection::Tcp(TcpConnection::new()));
    let mut strip = LedStrip::default();
    assert!(strip.set_led_count(2));
    strip.colors[0] = rgb(1, 2, 3);
    strip.colors[1] = rgb(4, 5, 6);
    strip.connection_id = Some(1);
    assert!(send_to_connection(&mut strip, 1, &mut conns).is_ok());
    assert_eq!(strip.connection_id, Some(1));
    match conns.get(1).unwrap() {
        Connection::Tcp(t) => {
            assert!(t.live);
            assert_eq!(t.data_queue.len(), 1);
            assert_eq!(t.data_queue[0], vec![1, 2, 3, 4, 5, 6]);
        },
        _ => panic!("expected the stream connection"),
    }
}

#[test]
fn missing_connection_is_skipped_not_fatal() {
    let mut conns: Registry<Connection> = Registry::new();
    let mut strip = LedStrip::default();
    assert!(strip.set_led_count(1));
    strip.connection_id = Some(42);
    let mut strips = vec![strip];
    let mut effects: Registry<Effect> = Registry::new();
    let settings: Registry<Settings> = Registry::new();
    let links: Registry<i32> = Registry::new();
    assert!(tick(&mut strips, &mut effects, &settings, &links, &mut conns).is_ok());
    // The identifier stays: external management may still rebind it.
    assert_eq!(strips[0].connection_id, Some(42));
}

#[test]
fn unimplemented_transport_is_fatal() {
    let mut conns: Registry<Connection> = Registry::new();
    conns.insert(2, Connection::Usb(UsbConnection {}));
    let mut strip = LedStrip::default();
    assert!(strip.set_led_count(1));
    strip.connection_id = Some(2);
    let mut strips = vec![strip];
    let mut effects: Registry<Effect> = Registry::new();
    let settings: Registry<Settings> = Registry::new();
    let links: Registry<i32> = Registry::new();
    let r = tick(&mut strips, &mut effects, &settings, &links, &mut conns);
    assert_eq!(r, Err(FatalError::UnimplementedTransport { connection_id: 2 }));
}

#[test]
fn raindrop_scenario_runs_1000_ticks() {
    // One 300-LED strip, a single binding covering the full range to the
    // stateful raindrop effect with one drop in ten per tick and speed 1.
    let mut settings: Registry<Settings> = Registry::new();
    let mut effects: Registry<Effect> = Registry::new();
    let mut links: Registry<i32> = Registry::new();
    let mut conns: Registry<Connection> = Registry::new();
    settings.insert(1, Settings::Raindrop(RaindropSettings { rain_speed: 1, drop_rate_pm: 100 }));
    effects.insert(
        20,
        Effect::Raindrop(Raindrops {
            id: 20,
            state: RaindropState { riples: Vec::new(), rng: 0x1234_5678_9abc_def0 },
        }),
    );
    links.insert(20, 1);
    let mut strip = LedStrip::default();
    assert!(strip.set_led_count(300));
    assert!(strip.add_effect(20, 0, 299));
    let mut strips = vec![strip];

    let mut mutated = false;
    let mut previous = strips[0].colors.clone();
    for _ in 0..1000 {
        let r = tick(&mut strips, &mut effects, &settings, &links, &mut conns);
        assert!(r.is_ok());
        assert_eq!(strips[0].colors.len(), 300);
        for c in strips[0].colors.iter() {
            // Channels are bytes by construction; spell the bound out.
            assert!(c.r <= 255 && c.g <= 255 && c.b <= 255);
        }
        if strips[0].colors != previous {
            mutated = true;
        }
        previous = strips[0].colors.clone();
    }
    assert!(mutated);
}

#[test]
fn update_strip_effects_layers_bindings_in_insertion_order() {
    let mut settings: Registry<Settings> = Registry::new();
    let mut effects: Registry<Effect> = Registry::new();
    let mut links: Registry<i32> = Registry::new();
    settings.insert(0, Settings::Moody(MoodySettings { color: rgb(1, 0, 0) }));
    settings.insert(1, Settings::Moody(MoodySettings { color: rgb(0, 2, 0) }));
    effects.insert(10, Effect::Moody(Moody { id: 10 }));
    effects.insert(11, Effect::Moody(Moody { id: 11 }));
    links.insert(10, 0);
    links.insert(11, 1);
    let mut strip = LedStrip::default();
    assert!(strip.set_led_count(4));
    assert!(strip.add_effect(10, 0, 3));
    assert!(strip.add_effect(11, 2, 3));
    let r = update_strip_effects(&mut strip, &mut effects, &settings, &links);
    assert!(r.is_ok());
    // The later binding overwrote the overlap.
    assert_eq!(strip.colors[0], rgb(1, 0, 0));
    assert_eq!(strip.colors[1], rgb(1, 0, 0));
    assert_eq!(strip.colors[2], rgb(0, 2, 0));
    assert_eq!(strip.colors[3], rgb(0, 2, 0));
}

#[test]
fn test_scene_matches_reference_setup() {
    let scene = build_test_scene(String::from("{\"intensity\":11}"));
    assert_eq!(scene.ledstrips.len(), 1);
    assert_eq!(scene.ledstrips[0].colors.len(), 300);
    assert_eq!(scene.ledstrips[0].effects, vec![(30, (0, 299))]);
    assert_eq!(scene.ledstrips[0].connection_id, Some(1));
    assert!(matches!(scene.effects.get(10), Some(Effect::Moody(_))));
    assert_eq!(scene.effects.get(10).unwrap().id(), 10);
    assert_eq!(scene.effects.get(20).unwrap().id(), 20);
    assert!(matches!(scene.effects.get(20), Some(Effect::Raindrop(_))));
    assert!(matches!(scene.effects.get(30), Some(Effect::Script(_))));
    assert_eq!(*scene.effect_settings.get(30).unwrap(), 2);
    assert!(matches!(scene.connections.get(1), Some(Connection::Tcp(_))));
    assert!(matches!(scene.connections.get(2), Some(Connection::Usb(_))));
}
