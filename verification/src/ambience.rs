//! The state of the world at large: its border, time, weather and rules.

use vstd::prelude::*;

use crate::clock;
use crate::packet;
use crate::packet::{Border, Packet, PacketView};
use crate::plugin::{Frame, FrameView};
use crate::views;
use crate::views::group_views;

verus! {

broadcast use group_views;

/// The bits of the border size that a world starts with, 59999968.
pub const WIDEST_BORDER: u64 = 0x418c9c3700000000;

/// A border, with the time at which it was last resized.
#[derive(Clone, Copy)]
pub struct BorderState {
    pub border: Border,
    pub started: u64,
}

/// The border of a world whose server has set none.
pub open spec fn default_border(now: u64) -> BorderState {
    BorderState {
        border: Border {
            center_x: 0,
            center_z: 0,
            old_size: WIDEST_BORDER,
            new_size: WIDEST_BORDER,
            lerp_millis: 0,
            absolute_max_size: 29_999_984,
            warning_blocks: 5,
            warning_time: 15,
        },
        started: now,
    }
}

/// The state of the world at large.
pub struct Ambience {
    border: Option<BorderState>,
    time: Option<Frame>,
    tab_list: Option<Frame>,
    rain: Option<Frame>,
    rain_level: Option<Frame>,
    thunder_level: Option<Frame>,
    difficulty: Option<Frame>,
    game_rules: Option<Frame>,
    simulation_distance: Option<Frame>,
}

/// What an [`Ambience`] holds.
#[verifier::ext_equal]
pub struct AmbienceView {
    pub border: Option<BorderState>,
    pub time: Option<FrameView>,
    pub tab_list: Option<FrameView>,
    pub rain: Option<FrameView>,
    pub rain_level: Option<FrameView>,
    pub thunder_level: Option<FrameView>,
    pub difficulty: Option<FrameView>,
    pub game_rules: Option<FrameView>,
    pub simulation_distance: Option<FrameView>,
}

impl View for Ambience {
    type V = AmbienceView;

    closed spec fn view(&self) -> AmbienceView {
        AmbienceView {
            border: self.border,
            time: views::seen(self.time),
            tab_list: views::seen(self.tab_list),
            rain: views::seen(self.rain),
            rain_level: views::seen(self.rain_level),
            thunder_level: views::seen(self.thunder_level),
            difficulty: views::seen(self.difficulty),
            game_rules: views::seen(self.game_rules),
            simulation_distance: views::seen(self.simulation_distance),
        }
    }
}

impl AmbienceView {
    pub open spec fn empty() -> AmbienceView {
        AmbienceView {
            border: None,
            time: None,
            tab_list: None,
            rain: None,
            rain_level: None,
            thunder_level: None,
            difficulty: None,
            game_rules: None,
            simulation_distance: None,
        }
    }

    /// The border that a partial update applies to.
    pub open spec fn known_border(self, now: u64) -> BorderState {
        match self.border {
            Some(b) => b,
            None => default_border(now),
        }
    }

    pub open spec fn set_border(self, border: Border, now: u64) -> AmbienceView {
        AmbienceView { border: Some(BorderState { border, started: now }), ..self }
    }

    pub open spec fn center_border(self, x: u64, z: u64, now: u64) -> AmbienceView {
        let b = self.known_border(now);
        AmbienceView {
            border: Some(
                BorderState { border: Border { center_x: x, center_z: z, ..b.border }, ..b },
            ),
            ..self
        }
    }

    pub open spec fn resize_border(
        self,
        old_size: u64,
        new_size: u64,
        lerp_millis: u64,
        now: u64,
    ) -> AmbienceView {
        AmbienceView {
            border: Some(
                BorderState {
                    border: Border {
                        old_size,
                        new_size,
                        lerp_millis,
                        ..self.known_border(now).border
                    },
                    started: now,
                },
            ),
            ..self
        }
    }

    pub open spec fn warn_time(self, warning_time: u32, now: u64) -> AmbienceView {
        let b = self.known_border(now);
        AmbienceView {
            border: Some(BorderState { border: Border { warning_time, ..b.border }, ..b }),
            ..self
        }
    }

    pub open spec fn warn_blocks(self, warning_blocks: u32, now: u64) -> AmbienceView {
        let b = self.known_border(now);
        AmbienceView {
            border: Some(BorderState { border: Border { warning_blocks, ..b.border }, ..b }),
            ..self
        }
    }

    /// The weather of a game event: 1 and 2 start and stop rain, 7 and 8 set
    /// how strong rain and thunder are. Of each the last one counts.
    pub open spec fn weather(self, frame: FrameView) -> AmbienceView {
        if frame.body.len() == 0 {
            self
        } else if frame.body[0] == 1 || frame.body[0] == 2 {
            AmbienceView { rain: Some(frame), ..self }
        } else if frame.body[0] == 7 {
            AmbienceView { rain_level: Some(frame), ..self }
        } else if frame.body[0] == 8 {
            AmbienceView { thunder_level: Some(frame), ..self }
        } else {
            self
        }
    }

    /// The dimension changed: its border and weather are gone.
    pub open spec fn on_respawn(self) -> AmbienceView {
        AmbienceView { border: None, rain: None, rain_level: None, thunder_level: None, ..self }
    }

    /// The border with what is left of its resizing.
    pub open spec fn border_packets(self, now: u64) -> Seq<PacketView> {
        match self.border {
            Some(b) => {
                let elapsed_millis = clock::millis_since(b.started, now);
                seq![
                    PacketView::InitializeBorder {
                        border: b.border,
                        elapsed_millis,
                        remaining_millis: clock::left_of(
                            b.border.lerp_millis,
                            elapsed_millis as int,
                        ),
                    },
                ]
            },
            None => Seq::empty(),
        }
    }

    /// Difficulty, rules, simulation distance, border and time.
    pub open spec fn setting(self, now: u64) -> Seq<PacketView> {
        packet::raw(self.difficulty) + packet::raw(self.game_rules) + packet::raw(
            self.simulation_distance,
        ) + self.border_packets(now) + packet::raw(self.time)
    }

    /// Rain and thunder.
    pub open spec fn weather_packets(self) -> Seq<PacketView> {
        packet::raw(self.rain) + packet::raw(self.rain_level) + packet::raw(self.thunder_level)
    }
}

impl Ambience {
    /// Nothing known.
    pub fn new() -> (r: Ambience)
        ensures
            r@ == AmbienceView::empty(),
    {
        Ambience {
            border: None,
            time: None,
            tab_list: None,
            rain: None,
            rain_level: None,
            thunder_level: None,
            difficulty: None,
            game_rules: None,
            simulation_distance: None,
        }
    }

    fn known_border(&self, now: u64) -> (r: BorderState)
        ensures
            r == self@.known_border(now),
    {
        match &self.border {
            Some(b) => *b,
            None => BorderState {
                border: Border {
                    center_x: 0,
                    center_z: 0,
                    old_size: WIDEST_BORDER,
                    new_size: WIDEST_BORDER,
                    lerp_millis: 0,
                    absolute_max_size: 29_999_984,
                    warning_blocks: 5,
                    warning_time: 15,
                },
                started: now,
            },
        }
    }

    /// The border was set.
    pub fn set_border(&mut self, border: &Border, now: u64)
        ensures
            final(self)@ == old(self)@.set_border(*border, now),
    {
        self.border = Some(BorderState { border: *border, started: now });
    }

    /// The border moved.
    pub fn center_border(&mut self, x: u64, z: u64, now: u64)
        ensures
            final(self)@ == old(self)@.center_border(x, z, now),
    {
        let b: BorderState = self.known_border(now);
        self.border = Some(
            BorderState {
                border: Border { center_x: x, center_z: z, ..b.border },
                started: b.started,
            },
        );
    }

    /// The border grows or shrinks.
    pub fn resize_border(&mut self, old_size: u64, new_size: u64, lerp_millis: u64, now: u64)
        ensures
            final(self)@ == old(self)@.resize_border(old_size, new_size, lerp_millis, now),
    {
        let b: BorderState = self.known_border(now);
        self.border = Some(
            BorderState {
                border: Border { old_size, new_size, lerp_millis, ..b.border },
                started: now,
            },
        );
    }

    /// The border warns earlier or later.
    pub fn warn_time(&mut self, warning_time: u32, now: u64)
        ensures
            final(self)@ == old(self)@.warn_time(warning_time, now),
    {
        let b: BorderState = self.known_border(now);
        self.border = Some(
            BorderState { border: Border { warning_time, ..b.border }, started: b.started },
        );
    }

    /// The border warns from nearer or farther.
    pub fn warn_blocks(&mut self, warning_blocks: u32, now: u64)
        ensures
            final(self)@ == old(self)@.warn_blocks(warning_blocks, now),
    {
        let b: BorderState = self.known_border(now);
        self.border = Some(
            BorderState { border: Border { warning_blocks, ..b.border }, started: b.started },
        );
    }

    /// The time of day.
    pub fn set_time(&mut self, frame: &Frame)
        ensures
            final(self)@ == (AmbienceView { time: Some(frame@), ..old(self)@ }),
    {
        self.time = Some(frame.clone());
    }

    /// The header and footer of the tab list.
    pub fn set_tab_list(&mut self, frame: &Frame)
        ensures
            final(self)@ == (AmbienceView { tab_list: Some(frame@), ..old(self)@ }),
    {
        self.tab_list = Some(frame.clone());
    }

    /// The difficulty.
    pub fn set_difficulty(&mut self, frame: &Frame)
        ensures
            final(self)@ == (AmbienceView { difficulty: Some(frame@), ..old(self)@ }),
    {
        self.difficulty = Some(frame.clone());
    }

    /// The game rules.
    pub fn set_game_rules(&mut self, frame: &Frame)
        ensures
            final(self)@ == (AmbienceView { game_rules: Some(frame@), ..old(self)@ }),
    {
        self.game_rules = Some(frame.clone());
    }

    /// The simulation distance.
    pub fn set_simulation_distance(&mut self, frame: &Frame)
        ensures
            final(self)@ == (AmbienceView { simulation_distance: Some(frame@), ..old(self)@ }),
    {
        self.simulation_distance = Some(frame.clone());
    }

    /// A game event, as far as it tells of the weather.
    pub fn weather(&mut self, frame: &Frame)
        ensures
            final(self)@ == old(self)@.weather(frame@),
    {
        if frame.body.len() > 0 {
            let event: u8 = frame.body[0];
            if event == 1 || event == 2 {
                self.rain = Some(frame.clone());
            } else if event == 7 {
                self.rain_level = Some(frame.clone());
            } else if event == 8 {
                self.thunder_level = Some(frame.clone());
            }
        }
    }

    /// The dimension changed.
    pub fn on_respawn(&mut self)
        ensures
            final(self)@ == old(self)@.on_respawn(),
    {
        self.border = None;
        self.rain = None;
        self.rain_level = None;
        self.thunder_level = None;
    }

    /// Queues difficulty, rules, simulation distance, border and time.
    pub fn queue_setting(&self, queue: &mut Vec<Packet>, now: u64)
        ensures
            views::views(final(queue)@) == views::views(old(queue)@) + self@.setting(now),
    {
        let ghost before = views::views(queue@);
        packet::queue_frame(queue, &self.difficulty);
        packet::queue_frame(queue, &self.game_rules);
        packet::queue_frame(queue, &self.simulation_distance);
        let ghost ruled = views::views(queue@);
        match &self.border {
            Some(b) => {
                let elapsed_millis: u64 = clock::elapsed_millis(b.started, now);
                queue.push(
                    Packet::InitializeBorder {
                        border: b.border,
                        elapsed_millis,
                        remaining_millis: clock::remaining(b.border.lerp_millis, elapsed_millis),
                    },
                );
            },
            None => {},
        }
        proof {
            assert(views::views(queue@) =~= ruled + self@.border_packets(now));
        }
        packet::queue_frame(queue, &self.time);
        proof {
            assert(views::views(queue@) =~= before + self@.setting(now));
        }
    }

    /// Queues the header and footer of the tab list.
    pub fn queue_tab_list(&self, queue: &mut Vec<Packet>)
        ensures
            views::views(final(queue)@) == views::views(old(queue)@) + packet::raw(self@.tab_list),
    {
        packet::queue_frame(queue, &self.tab_list);
    }

    /// Queues rain and thunder.
    pub fn queue_weather(&self, queue: &mut Vec<Packet>)
        ensures
            views::views(final(queue)@) == views::views(old(queue)@) + self@.weather_packets(),
    {
        let ghost before = views::views(queue@);
        packet::queue_frame(queue, &self.rain);
        packet::queue_frame(queue, &self.rain_level);
        packet::queue_frame(queue, &self.thunder_level);
        proof {
            assert(views::views(queue@) =~= before + self@.weather_packets());
        }
    }
}

} // verus!
