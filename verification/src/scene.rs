//! The demonstration scene the reference runner assembles: one effect of
//! each variant with its settings, a live stream connection beside an
//! unimplemented bulk-serial one, and a 300-LED strip bound wholly to the
//! script effect.

use crate::color::Color;
use crate::connections::{Connection, TcpConnection, UsbConnection};
use crate::effects::{
    Effect, Moody, MoodySettings, RaindropSettings, RaindropState, Raindrops, ScriptEffect,
    ScriptSettings, Settings,
};
use crate::ledstrip::LedStrip;
use crate::registry::Registry;
use vstd::prelude::*;

verus! {

/// Seed of the raindrop spawn generator at setup time.
pub const RAINDROP_SEED: u64 = 0x853c49e6748fea9b;

/// Everything a control loop ticks over: the four registries and the
/// strips, owned together and passed explicitly into the scheduler.
pub struct Scene {
    pub settings: Registry<Settings>,
    pub effects: Registry<Effect>,
    pub effect_settings: Registry<i32>,
    pub connections: Registry<Connection>,
    pub ledstrips: Vec<LedStrip>,
}

/// Builds the reference scene: moody settings under identifier 0 (pure
/// red), raindrop settings under 1 (speed 1, one drop in ten per tick),
/// script settings under 2; effects 10 (moody), 20 (raindrop, no ripples
/// yet), 30 (script); a live stream connection 1 and a bulk-serial
/// connection 2; and one strip of 300 dark LEDs bound wholly to effect
/// 30 and to connection 1.
pub fn build_test_scene(script_params: String) -> (s: Scene)
    ensures
        s.settings.wf(),
        s.effects.wf(),
        s.effect_settings.wf(),
        s.connections.wf(),
        s.settings.has_pair(0, Settings::Moody(MoodySettings { color: Color { r: 255, g: 0, b: 0 } })),
        s.settings.has_pair(
            1,
            Settings::Raindrop(RaindropSettings { rain_speed: 1, drop_rate_pm: 100 }),
        ),
        s.settings.contains_key(2),
        s.effects.has_pair(10, Effect::Moody(Moody { id: 10 })),
        s.effects.contains_key(20),
        forall|e: Effect|
            s.effects.has_pair(20, e) ==> match e {
                Effect::Raindrop(rd) => rd.id == 20 && rd.state.riples@.len() == 0
                    && rd.state.rng == RAINDROP_SEED,
                _ => false,
            },
        s.effects.has_pair(30, Effect::Script(ScriptEffect { id: 30 })),
        s.effect_settings.has_pair(10, 0),
        s.effect_settings.has_pair(20, 1),
        s.effect_settings.has_pair(30, 2),
        s.connections.contains_key(1),
        forall|c: Connection|
            s.connections.has_pair(1, c) ==> match c {
                Connection::Tcp(t) => t.live && t.data_queue@.len() == 0,
                _ => false,
            },
        s.connections.has_pair(2, Connection::Usb(UsbConnection {  })),
        s.ledstrips@.len() == 1,
        s.ledstrips@[0].wf(),
        s.ledstrips@[0].colors@.len() == 300,
        forall|m: int| 0 <= m < 300 ==> s.ledstrips@[0].colors@[m] == (Color { r: 0, g: 0, b: 0 }),
        s.ledstrips@[0].effects@ =~= seq![(30i32, (0usize, 299usize))],
        s.ledstrips@[0].connection_id == Some(1i32),
{
    let mut settings: Registry<Settings> = Registry::new();
    let mut effects: Registry<Effect> = Registry::new();
    let mut effect_settings: Registry<i32> = Registry::new();
    let mut connections: Registry<Connection> = Registry::new();
    let mut ledstrips: Vec<LedStrip> = Vec::new();

    let moody_settings = MoodySettings { color: Color { r: 255, g: 0, b: 0 } };
    let raindrop_settings = RaindropSettings { rain_speed: 1, drop_rate_pm: 100 };
    let script_settings = ScriptSettings { params: script_params };
    settings.insert(0, Settings::Moody(moody_settings));
    settings.insert(1, Settings::Raindrop(raindrop_settings));
    settings.insert(2, Settings::Script(script_settings));

    let moody = Moody { id: 10 };
    effects.insert(10, Effect::Moody(moody));
    effect_settings.insert(10, 0);

    let raindrop = Raindrops {
        id: 20,
        state: RaindropState { riples: Vec::new(), rng: RAINDROP_SEED },
    };
    effects.insert(20, Effect::Raindrop(raindrop));
    effect_settings.insert(20, 1);

    let script_effect = ScriptEffect { id: 30 };
    effects.insert(30, Effect::Script(script_effect));
    effect_settings.insert(30, 2);

    let connection_id: i32 = 1;
    connections.insert(connection_id, Connection::Tcp(TcpConnection::new()));
    connections.insert(2, Connection::Usb(UsbConnection {  }));

    let mut ls1 = LedStrip::default();
    let sized = ls1.set_led_count(300);
    proof {
        assert(sized);
    }
    let bound = ls1.add_effect(30, 0, 299);
    proof {
        assert(bound);
    }
    ls1.connection_id = Some(connection_id);
    ledstrips.push(ls1);

    Scene { settings, effects, effect_settings, connections, ledstrips }
}

} // verus!
