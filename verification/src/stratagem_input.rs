//! The key sequence that enters a Stratagem code in the game: hold the Stratagem
//! menu key, tap the direction keys, release.
use crate::catalog::Direction;
use crate::input::Key;
use crate::text::{decimal, decimal_of};
use vstd::arithmetic::mul::lemma_mul_nonnegative;
use vstd::prelude::*;

verus! {

/// The longest delay that a setting may have, in milliseconds.
pub const MAX_DELAY_MS: u64 = 1_000;

/// How the game opens the Stratagem menu.
#[derive(Debug, Clone, Copy, PartialEq, Eq, Structural)]
pub enum MenuMode {
    /// The Stratagem menu is open while the menu key is held (game default).
    Hold,
    /// Pressing the menu key toggles the Stratagem menu.
    Press,
}

impl MenuMode {
    pub const ALL: [MenuMode; 2] = [MenuMode::Hold, MenuMode::Press];

    pub open spec fn label_text(self) -> Seq<char> {
        match self {
            MenuMode::Hold => "Hold"@,
            MenuMode::Press => "Press (toggle)"@,
        }
    }

    /// The spelling in the configuration file.
    pub open spec fn config_text(self) -> Seq<char> {
        match self {
            MenuMode::Hold => "hold"@,
            MenuMode::Press => "press"@,
        }
    }

    pub fn label(self) -> (r: &'static str)
        ensures
            r@ == self.label_text(),
    {
        match self {
            MenuMode::Hold => "Hold",
            MenuMode::Press => "Press (toggle)",
        }
    }

    /// The spelling in the configuration file.
    pub fn config_name(self) -> (r: &'static str)
        ensures
            r@ == self.config_text(),
    {
        match self {
            MenuMode::Hold => "hold",
            MenuMode::Press => "press",
        }
    }
}

/// The common layouts of the direction keys.
#[derive(Debug, Clone, Copy, PartialEq, Eq, Structural)]
pub enum DirectionKeys {
    Arrows,
    Wasd,
}

impl DirectionKeys {
    pub const ALL: [DirectionKeys; 2] = [DirectionKeys::Arrows, DirectionKeys::Wasd];

    pub open spec fn label_text(self) -> Seq<char> {
        match self {
            DirectionKeys::Arrows => "Arrow keys"@,
            DirectionKeys::Wasd => "WASD"@,
        }
    }

    pub fn label(self) -> (r: &'static str)
        ensures
            r@ == self.label_text(),
    {
        match self {
            DirectionKeys::Arrows => "Arrow keys",
            DirectionKeys::Wasd => "WASD",
        }
    }

    /// The key that the layout has for a direction.
    pub open spec fn key_for(self, direction: Direction) -> Key {
        match (self, direction) {
            (DirectionKeys::Arrows, Direction::Up) => Key::Up,
            (DirectionKeys::Arrows, Direction::Down) => Key::Down,
            (DirectionKeys::Arrows, Direction::Left) => Key::Left,
            (DirectionKeys::Arrows, Direction::Right) => Key::Right,
            (DirectionKeys::Wasd, Direction::Up) => Key::W,
            (DirectionKeys::Wasd, Direction::Down) => Key::S,
            (DirectionKeys::Wasd, Direction::Left) => Key::A,
            (DirectionKeys::Wasd, Direction::Right) => Key::D,
        }
    }

    /// The key that the layout has for a direction.
    pub fn key(self, direction: Direction) -> (r: Key)
        ensures
            r == self.key_for(direction),
    {
        match (self, direction) {
            (DirectionKeys::Arrows, Direction::Up) => Key::Up,
            (DirectionKeys::Arrows, Direction::Down) => Key::Down,
            (DirectionKeys::Arrows, Direction::Left) => Key::Left,
            (DirectionKeys::Arrows, Direction::Right) => Key::Right,
            (DirectionKeys::Wasd, Direction::Up) => Key::W,
            (DirectionKeys::Wasd, Direction::Down) => Key::S,
            (DirectionKeys::Wasd, Direction::Left) => Key::A,
            (DirectionKeys::Wasd, Direction::Right) => Key::D,
        }
    }
}

pub const DIRECTIONS: [Direction; 4] = [
    Direction::Up,
    Direction::Down,
    Direction::Left,
    Direction::Right,
];

/// The delays that can be set.
#[derive(Debug, Clone, Copy, PartialEq, Eq, Structural)]
pub enum DelayField {
    MenuOpen,
    KeyHold,
    KeyGap,
    MenuRelease,
}

impl DelayField {
    /// The key of the delay in the configuration file.
    pub open spec fn config_text(self) -> Seq<char> {
        match self {
            DelayField::MenuOpen => "menu_open_delay_ms"@,
            DelayField::KeyHold => "key_hold_ms"@,
            DelayField::KeyGap => "key_gap_ms"@,
            DelayField::MenuRelease => "menu_release_delay_ms"@,
        }
    }

    /// The key of the delay in the configuration file.
    pub fn config_name(self) -> (r: &'static str)
        ensures
            r@ == self.config_text(),
    {
        match self {
            DelayField::MenuOpen => "menu_open_delay_ms",
            DelayField::KeyHold => "key_hold_ms",
            DelayField::KeyGap => "key_gap_ms",
            DelayField::MenuRelease => "menu_release_delay_ms",
        }
    }
}

/// Why input settings or a code cannot be used.
#[derive(Debug, Clone, Copy, PartialEq, Eq, Structural)]
pub enum InputError {
    EmptyCode,
    DelayTooLong { field: DelayField, value: u64 },
    ZeroHold,
    MenuKeyIsDirection,
    RepeatedDirectionKey(Key),
}

impl InputError {
    /// The message shown to the user.
    pub open spec fn message_text(self) -> Seq<char> {
        match self {
            InputError::EmptyCode => "stratagem code is empty"@,
            InputError::DelayTooLong { field, value } => "mission."@ + field.config_text()
                + " must be at most 1000 ms, got "@ + decimal(value as nat),
            InputError::ZeroHold => "mission.key_hold_ms must be greater than zero"@,
            InputError::MenuKeyIsDirection => "the Stratagem menu key cannot also be a direction key"@,
            InputError::RepeatedDirectionKey(key) => key.name_text()
                + " is used for more than one direction"@,
        }
    }

    /// The message shown to the user.
    pub fn message(self) -> (r: String)
        ensures
            r@ == self.message_text(),
    {
        match self {
            InputError::EmptyCode => "stratagem code is empty".to_string(),
            InputError::DelayTooLong { field, value } => {
                let mut out = "mission.".to_string();
                out.push_str(field.config_name());
                out.push_str(" must be at most 1000 ms, got ");
                out.push_str(decimal_of(value).as_str());
                out
            },
            InputError::ZeroHold => "mission.key_hold_ms must be greater than zero".to_string(),
            InputError::MenuKeyIsDirection => {
                "the Stratagem menu key cannot also be a direction key".to_string()
            },
            InputError::RepeatedDirectionKey(key) => {
                let mut out = key.name().to_string();
                out.push_str(" is used for more than one direction");
                out
            },
        }
    }
}

/// How the tool enters Stratagem codes.
#[derive(Debug, Clone, Copy, PartialEq, Eq, Structural)]
pub struct StratagemInputSettings {
    /// Key bound to "Stratagem menu" in Helldivers 2.
    pub menu_key: Key,
    pub menu_mode: MenuMode,
    /// Keys bound to the four Stratagem directions in Helldivers 2.
    pub direction_up: Key,
    pub direction_down: Key,
    pub direction_left: Key,
    pub direction_right: Key,
    /// Wait after opening the menu before the first direction.
    pub menu_open_delay_ms: u64,
    /// How long each direction key is held.
    pub key_hold_ms: u64,
    /// Gap between direction keys.
    pub key_gap_ms: u64,
    /// Wait after the last direction before releasing the menu key (hold mode).
    pub menu_release_delay_ms: u64,
}

impl Default for StratagemInputSettings {
    fn default() -> (r: StratagemInputSettings)
        ensures
            r == StratagemInputSettings::defaults(),
    {
        StratagemInputSettings {
            menu_key: Key::LCtrl,
            menu_mode: MenuMode::Hold,
            direction_up: Key::Up,
            direction_down: Key::Down,
            direction_left: Key::Left,
            direction_right: Key::Right,
            menu_open_delay_ms: 60,
            key_hold_ms: 40,
            key_gap_ms: 40,
            menu_release_delay_ms: 40,
        }
    }
}

impl StratagemInputSettings {
    /// The settings of a fresh installation.
    pub open spec fn defaults() -> StratagemInputSettings {
        StratagemInputSettings {
            menu_key: Key::LCtrl,
            menu_mode: MenuMode::Hold,
            direction_up: Key::Up,
            direction_down: Key::Down,
            direction_left: Key::Left,
            direction_right: Key::Right,
            menu_open_delay_ms: 60,
            key_hold_ms: 40,
            key_gap_ms: 40,
            menu_release_delay_ms: 40,
        }
    }

    /// The key for a direction.
    pub open spec fn key_for(self, direction: Direction) -> Key {
        match direction {
            Direction::Up => self.direction_up,
            Direction::Down => self.direction_down,
            Direction::Left => self.direction_left,
            Direction::Right => self.direction_right,
        }
    }

    /// The settings with another key for one direction.
    pub open spec fn with_direction(
        self,
        direction: Direction,
        key: Key,
    ) -> StratagemInputSettings {
        match direction {
            Direction::Up => StratagemInputSettings { direction_up: key, ..self },
            Direction::Down => StratagemInputSettings { direction_down: key, ..self },
            Direction::Left => StratagemInputSettings { direction_left: key, ..self },
            Direction::Right => StratagemInputSettings { direction_right: key, ..self },
        }
    }

    /// The settings with the four direction keys of a layout.
    pub open spec fn with_layout(self, layout: DirectionKeys) -> StratagemInputSettings {
        StratagemInputSettings {
            direction_up: layout.key_for(Direction::Up),
            direction_down: layout.key_for(Direction::Down),
            direction_left: layout.key_for(Direction::Left),
            direction_right: layout.key_for(Direction::Right),
            ..self
        }
    }

    /// The first thing that is wrong with the settings, if anything is.
    pub open spec fn problem(self) -> Option<InputError> {
        if self.menu_open_delay_ms > MAX_DELAY_MS {
            Some(
                InputError::DelayTooLong {
                    field: DelayField::MenuOpen,
                    value: self.menu_open_delay_ms,
                },
            )
        } else if self.key_hold_ms > MAX_DELAY_MS {
            Some(InputError::DelayTooLong { field: DelayField::KeyHold, value: self.key_hold_ms })
        } else if self.key_gap_ms > MAX_DELAY_MS {
            Some(InputError::DelayTooLong { field: DelayField::KeyGap, value: self.key_gap_ms })
        } else if self.menu_release_delay_ms > MAX_DELAY_MS {
            Some(
                InputError::DelayTooLong {
                    field: DelayField::MenuRelease,
                    value: self.menu_release_delay_ms,
                },
            )
        } else if self.key_hold_ms == 0 {
            Some(InputError::ZeroHold)
        } else if exists|direction: Direction| #[trigger] self.key_for(direction) == self.menu_key {
            Some(InputError::MenuKeyIsDirection)
        } else if self.direction_down == self.direction_up {
            Some(InputError::RepeatedDirectionKey(self.direction_down))
        } else if self.direction_left == self.direction_up || self.direction_left
            == self.direction_down {
            Some(InputError::RepeatedDirectionKey(self.direction_left))
        } else if self.direction_right == self.direction_up || self.direction_right
            == self.direction_down || self.direction_right == self.direction_left {
            Some(InputError::RepeatedDirectionKey(self.direction_right))
        } else {
            None
        }
    }

    pub fn direction_key(&self, direction: Direction) -> (r: Key)
        ensures
            r == self.key_for(direction),
    {
        match direction {
            Direction::Up => self.direction_up,
            Direction::Down => self.direction_down,
            Direction::Left => self.direction_left,
            Direction::Right => self.direction_right,
        }
    }

    pub fn set_direction_key(&mut self, direction: Direction, key: Key)
        ensures
            *final(self) == old(self).with_direction(direction, key),
    {
        match direction {
            Direction::Up => self.direction_up = key,
            Direction::Down => self.direction_down = key,
            Direction::Left => self.direction_left = key,
            Direction::Right => self.direction_right = key,
        }
    }

    /// Applies one of the common layouts to all four direction keys.
    pub fn apply_layout(&mut self, layout: DirectionKeys)
        ensures
            *final(self) == old(self).with_layout(layout),
    {
        self.set_direction_key(Direction::Up, layout.key(Direction::Up));
        self.set_direction_key(Direction::Down, layout.key(Direction::Down));
        self.set_direction_key(Direction::Left, layout.key(Direction::Left));
        self.set_direction_key(Direction::Right, layout.key(Direction::Right));
    }

    /// Whether the four direction keys are those of a layout.
    pub fn matches_layout(&self, layout: DirectionKeys) -> (r: bool)
        ensures
            r == (*self == self.with_layout(layout)),
    {
        self.direction_key(Direction::Up) == layout.key(Direction::Up) && self.direction_key(
            Direction::Down,
        ) == layout.key(Direction::Down) && self.direction_key(Direction::Left) == layout.key(
            Direction::Left,
        ) && self.direction_key(Direction::Right) == layout.key(Direction::Right)
    }

    /// Checks the delays, that no direction is the menu key, and that the four
    /// directions have four different keys. The first failing check is reported.
    pub fn validate(&self) -> (r: Result<(), InputError>)
        ensures
            match r {
                Ok(_) => self.problem() is None,
                Err(error) => self.problem() == Some(error),
            },
    {
        if self.menu_open_delay_ms > MAX_DELAY_MS {
            return Err(
                InputError::DelayTooLong {
                    field: DelayField::MenuOpen,
                    value: self.menu_open_delay_ms,
                },
            );
        }
        if self.key_hold_ms > MAX_DELAY_MS {
            return Err(
                InputError::DelayTooLong { field: DelayField::KeyHold, value: self.key_hold_ms },
            );
        }
        if self.key_gap_ms > MAX_DELAY_MS {
            return Err(
                InputError::DelayTooLong { field: DelayField::KeyGap, value: self.key_gap_ms },
            );
        }
        if self.menu_release_delay_ms > MAX_DELAY_MS {
            return Err(
                InputError::DelayTooLong {
                    field: DelayField::MenuRelease,
                    value: self.menu_release_delay_ms,
                },
            );
        }
        if self.key_hold_ms == 0 {
            return Err(InputError::ZeroHold);
        }
        assert(self.key_for(Direction::Up) == self.direction_up);
        assert(self.key_for(Direction::Down) == self.direction_down);
        assert(self.key_for(Direction::Left) == self.direction_left);
        assert(self.key_for(Direction::Right) == self.direction_right);
        if self.direction_up == self.menu_key || self.direction_down == self.menu_key
            || self.direction_left == self.menu_key || self.direction_right == self.menu_key {
            return Err(InputError::MenuKeyIsDirection);
        }
        if self.direction_down == self.direction_up {
            return Err(InputError::RepeatedDirectionKey(self.direction_down));
        }
        if self.direction_left == self.direction_up || self.direction_left == self.direction_down {
            return Err(InputError::RepeatedDirectionKey(self.direction_left));
        }
        if self.direction_right == self.direction_up || self.direction_right == self.direction_down
            || self.direction_right == self.direction_left {
            return Err(InputError::RepeatedDirectionKey(self.direction_right));
        }
        Ok(())
    }

    /// The time that a code of `code_len` directions takes, in milliseconds.
    pub open spec fn estimate(self, code_len: nat) -> nat {
        (self.menu_open_delay_ms + code_len * self.key_hold_ms + self.key_hold_ms + (if code_len > 1 {
            (code_len - 1) * self.key_gap_ms
        } else {
            0
        }) + (if self.menu_mode == MenuMode::Hold {
            self.menu_release_delay_ms as int
        } else {
            0
        })) as nat
    }

    /// Total time the sequence takes in milliseconds, for status display.
    pub fn estimated_duration(&self, code_len: usize) -> (r: u64)
        requires
            self.estimate(code_len as nat) <= u64::MAX,
        ensures
            r == self.estimate(code_len as nat),
    {
        let taps: u64 = code_len as u64;
        proof {
            lemma_mul_nonnegative(code_len as int, self.key_hold_ms as int);
            if code_len > 1 {
                lemma_mul_nonnegative(code_len - 1, self.key_gap_ms as int);
            }
        }
        let mut total: u64 = self.menu_open_delay_ms + taps * self.key_hold_ms + self.key_hold_ms;
        if taps > 1 {
            total = total + (taps - 1) * self.key_gap_ms;
        }
        if self.menu_mode == MenuMode::Hold {
            total = total + self.menu_release_delay_ms;
        }
        total
    }
}

/// One action on the keyboard, or a pause between two.
#[derive(Debug, Clone, Copy, PartialEq, Eq, Structural)]
pub enum InputStep {
    Press(Key),
    Tap { key: Key, hold_ms: u64 },
    Wait(u64),
    Release(Key),
}

/// The taps of a code: one per direction, with a gap between each two.
pub open spec fn tap_steps(settings: StratagemInputSettings, code: Seq<Direction>) -> Seq<InputStep>
    decreases code.len(),
{
    if code.len() == 0 {
        Seq::empty()
    } else {
        let tap = InputStep::Tap {
            key: settings.key_for(code.last()),
            hold_ms: settings.key_hold_ms,
        };
        if code.len() == 1 {
            seq![tap]
        } else {
            tap_steps(settings, code.drop_last()).push(InputStep::Wait(settings.key_gap_ms)).push(
                tap,
            )
        }
    }
}

/// The steps that open the Stratagem menu.
pub open spec fn opening_steps(settings: StratagemInputSettings) -> Seq<InputStep> {
    seq![
        match settings.menu_mode {
            MenuMode::Hold => InputStep::Press(settings.menu_key),
            MenuMode::Press => InputStep::Tap {
                key: settings.menu_key,
                hold_ms: settings.key_hold_ms,
            },
        },
        InputStep::Wait(settings.menu_open_delay_ms),
    ]
}

/// The steps that close the Stratagem menu.
pub open spec fn closing_steps(settings: StratagemInputSettings) -> Seq<InputStep> {
    match settings.menu_mode {
        MenuMode::Hold => seq![
            InputStep::Wait(settings.menu_release_delay_ms),
            InputStep::Release(settings.menu_key),
        ],
        MenuMode::Press => Seq::empty(),
    }
}

/// The whole sequence that enters a code.
pub open spec fn input_plan(settings: StratagemInputSettings, code: Seq<Direction>) -> Seq<
    InputStep,
> {
    opening_steps(settings) + tap_steps(settings, code) + closing_steps(settings)
}

/// The steps that enter `code` in the game. A code must not be empty and the
/// settings must be valid.
pub fn execute(settings: &StratagemInputSettings, code: &Vec<Direction>) -> (r: Result<
    Vec<InputStep>,
    InputError,
>)
    ensures
        match r {
            Ok(steps) => code@.len() > 0 && settings.problem() is None && steps@ == input_plan(
                *settings,
                code@,
            ),
            Err(error) => if code@.len() == 0 {
                error == InputError::EmptyCode
            } else {
                settings.problem() == Some(error)
            },
        },
{
    if code.len() == 0 {
        return Err(InputError::EmptyCode);
    }
    match settings.validate() {
        Ok(_) => {},
        Err(error) => {
            return Err(error);
        },
    }
    let mut steps: Vec<InputStep> = Vec::new();
    match settings.menu_mode {
        MenuMode::Hold => steps.push(InputStep::Press(settings.menu_key)),
        MenuMode::Press => steps.push(
            InputStep::Tap { key: settings.menu_key, hold_ms: settings.key_hold_ms },
        ),
    }
    steps.push(InputStep::Wait(settings.menu_open_delay_ms));
    assert(steps@ == opening_steps(*settings));
    let mut i: usize = 0;
    assert(steps@ == opening_steps(*settings) + tap_steps(*settings, code@.take(0)));
    while i < code.len()
        invariant
            i <= code.len(),
            steps@ == opening_steps(*settings) + tap_steps(*settings, code@.take(i as int)),
        decreases code.len() - i,
    {
        if i > 0 {
            steps.push(InputStep::Wait(settings.key_gap_ms));
        }
        steps.push(
            InputStep::Tap {
                key: settings.direction_key(code[i]),
                hold_ms: settings.key_hold_ms,
            },
        );
        assert(code@.take(i + 1).drop_last() == code@.take(i as int));
        assert(code@.take(i + 1).last() == code@[i as int]);
        assert(steps@ == opening_steps(*settings) + tap_steps(*settings, code@.take(i + 1)));
        i = i + 1;
    }
    assert(code@.take(code@.len() as int) == code@);
    if settings.menu_mode == MenuMode::Hold {
        steps.push(InputStep::Wait(settings.menu_release_delay_ms));
        steps.push(InputStep::Release(settings.menu_key));
    }
    assert(steps@ == input_plan(*settings, code@));
    Ok(steps)
}

/// The time that a step takes, in milliseconds.
pub open spec fn step_time(step: InputStep) -> nat {
    match step {
        InputStep::Tap { hold_ms, .. } => hold_ms as nat,
        InputStep::Wait(ms) => ms as nat,
        InputStep::Press(_) => 0,
        InputStep::Release(_) => 0,
    }
}

/// The time that a sequence of steps takes, in milliseconds.
pub open spec fn plan_time(steps: Seq<InputStep>) -> nat
    decreases steps.len(),
{
    if steps.len() == 0 {
        0
    } else {
        plan_time(steps.drop_last()) + step_time(steps.last())
    }
}

proof fn lemma_plan_time_concat(a: Seq<InputStep>, b: Seq<InputStep>)
    ensures
        plan_time(a + b) == plan_time(a) + plan_time(b),
    decreases b.len(),
{
    if b.len() == 0 {
        assert(a + b == a);
    } else {
        assert((a + b).drop_last() == a + b.drop_last());
        lemma_plan_time_concat(a, b.drop_last());
    }
}

proof fn lemma_plan_time_push(steps: Seq<InputStep>, step: InputStep)
    ensures
        plan_time(steps.push(step)) == plan_time(steps) + step_time(step),
{
    assert(steps.push(step).drop_last() == steps);
}

proof fn lemma_tap_time(settings: StratagemInputSettings, code: Seq<Direction>)
    requires
        code.len() > 0,
    ensures
        plan_time(tap_steps(settings, code)) == code.len() * settings.key_hold_ms + (code.len() - 1)
            * settings.key_gap_ms,
    decreases code.len(),
{
    let tap = InputStep::Tap { key: settings.key_for(code.last()), hold_ms: settings.key_hold_ms };
    let n: int = code.len() as int;
    let hold: int = settings.key_hold_ms as int;
    let gap: int = settings.key_gap_ms as int;
    assert(n * hold == (n - 1) * hold + hold) by (nonlinear_arith);
    if code.len() == 1 {
        assert(seq![tap] == Seq::<InputStep>::empty().push(tap));
        lemma_plan_time_push(Seq::empty(), tap);
        assert(0 * hold == 0 && 0 * gap == 0) by (nonlinear_arith);
    } else {
        lemma_tap_time(settings, code.drop_last());
        let before = tap_steps(settings, code.drop_last());
        let wait = InputStep::Wait(settings.key_gap_ms);
        lemma_plan_time_push(before, wait);
        lemma_plan_time_push(before.push(wait), tap);
        assert((n - 1) * gap == (n - 2) * gap + gap) by (nonlinear_arith);
    }
}

/// The estimate covers the whole sequence: it is exact when the menu key is
/// tapped, and one key press more than needed when it is held.
pub proof fn lemma_estimate_covers_plan(settings: StratagemInputSettings, code: Seq<Direction>)
    requires
        code.len() > 0,
    ensures
        settings.menu_mode == MenuMode::Press ==> plan_time(input_plan(settings, code))
            == settings.estimate(code.len()),
        settings.menu_mode == MenuMode::Hold ==> plan_time(input_plan(settings, code))
            + settings.key_hold_ms == settings.estimate(code.len()),
{
    let opening = opening_steps(settings);
    let closing = closing_steps(settings);
    lemma_plan_time_concat(opening + tap_steps(settings, code), closing);
    lemma_plan_time_concat(opening, tap_steps(settings, code));
    lemma_tap_time(settings, code);
    let none = Seq::<InputStep>::empty();
    assert(opening == none.push(opening[0]).push(opening[1]));
    lemma_plan_time_push(none, opening[0]);
    lemma_plan_time_push(none.push(opening[0]), opening[1]);
    if settings.menu_mode == MenuMode::Hold {
        assert(closing == none.push(closing[0]).push(closing[1]));
        lemma_plan_time_push(none, closing[0]);
        lemma_plan_time_push(none.push(closing[0]), closing[1]);
    }
    let gap: int = settings.key_gap_ms as int;
    assert(0 * gap == 0) by (nonlinear_arith);
    lemma_mul_nonnegative(code.len() as int, settings.key_hold_ms as int);
    lemma_mul_nonnegative(code.len() - 1, gap);
}

proof fn lemma_tap_steps_only_tap(settings: StratagemInputSettings, code: Seq<Direction>)
    ensures
        forall|i: int|
            0 <= i < tap_steps(settings, code).len() ==> {
                ||| (#[trigger] tap_steps(settings, code)[i]) is Tap
                ||| tap_steps(settings, code)[i] is Wait
            },
    decreases code.len(),
{
    if code.len() > 1 {
        lemma_tap_steps_only_tap(settings, code.drop_last());
        let before = tap_steps(settings, code.drop_last());
        assert forall|i: int| 0 <= i < tap_steps(settings, code).len() implies {
            ||| (#[trigger] tap_steps(settings, code)[i]) is Tap
            ||| tap_steps(settings, code)[i] is Wait
        } by {
            if i < before.len() {
                assert(tap_steps(settings, code)[i] == before[i]);
            }
        }
    }
}

/// A key that is pressed is released: in hold mode the sequence begins by
/// pressing the menu key and ends by releasing it, and nothing between is pressed
/// or released; in press mode every key is tapped.
pub proof fn lemma_plan_leaves_no_key_down(settings: StratagemInputSettings, code: Seq<Direction>)
    ensures
        ({
            let plan = input_plan(settings, code);
            &&& plan.len() >= 2
            &&& settings.menu_mode == MenuMode::Hold ==> {
                &&& plan.len() >= 4
                &&& plan[0] == InputStep::Press(settings.menu_key)
                &&& plan.last() == InputStep::Release(settings.menu_key)
                &&& forall|i: int|
                    0 < i < plan.len() - 1 ==> (#[trigger] plan[i]) is Tap || plan[i] is Wait
            }
            &&& settings.menu_mode == MenuMode::Press ==> forall|i: int|
                0 <= i < plan.len() ==> (#[trigger] plan[i]) is Tap || plan[i] is Wait
        }),
{
    lemma_tap_steps_only_tap(settings, code);
    let plan = input_plan(settings, code);
    let taps = tap_steps(settings, code);
    assert forall|i: int| 2 <= i < 2 + taps.len() implies (#[trigger] plan[i]) is Tap
        || plan[i] is Wait by {
        assert(plan[i] == taps[i - 2]);
    }
}

/// The sequence spells the code: under valid settings no two different codes
/// are entered by the same taps.
pub proof fn lemma_taps_determine_code(
    settings: StratagemInputSettings,
    a: Seq<Direction>,
    b: Seq<Direction>,
)
    requires
        settings.problem() is None,
        tap_steps(settings, a) == tap_steps(settings, b),
    ensures
        a == b,
    decreases a.len(),
{
    let x = tap_steps(settings, a);
    let y = tap_steps(settings, b);
    if a.len() == 0 || b.len() == 0 {
        assert(a =~= b);
    } else {
        assert(x.last() == (InputStep::Tap {
            key: settings.key_for(a.last()),
            hold_ms: settings.key_hold_ms,
        }));
        assert(y.last() == (InputStep::Tap {
            key: settings.key_for(b.last()),
            hold_ms: settings.key_hold_ms,
        }));
        assert(a.last() == b.last());
        if a.len() == 1 || b.len() == 1 {
            lemma_tap_count(settings, a);
            lemma_tap_count(settings, b);
            assert(a =~= b);
        } else {
            let p = tap_steps(settings, a.drop_last());
            let q = tap_steps(settings, b.drop_last());
            assert(x.drop_last().drop_last() == p);
            assert(y.drop_last().drop_last() == q);
            lemma_taps_determine_code(settings, a.drop_last(), b.drop_last());
            assert(a == a.drop_last().push(a.last()));
            assert(b == b.drop_last().push(b.last()));
        }
    }
}

proof fn lemma_tap_count(settings: StratagemInputSettings, code: Seq<Direction>)
    ensures
        code.len() > 0 ==> tap_steps(settings, code).len() == 2 * code.len() - 1,
    decreases code.len(),
{
    if code.len() > 1 {
        lemma_tap_count(settings, code.drop_last());
    }
}

/// A layout stays as it was applied: its four keys are found again, and they
/// pass as the layout.
pub proof fn lemma_layout_applied(
    settings: StratagemInputSettings,
    layout: DirectionKeys,
    direction: Direction,
)
    ensures
        settings.with_layout(layout).key_for(direction) == layout.key_for(direction),
        settings.with_layout(layout) == settings.with_layout(layout).with_layout(layout),
{
}

/// The settings of a fresh installation are valid.
pub proof fn lemma_defaults_valid()
    ensures
        StratagemInputSettings::defaults().problem() is None,
{
}

#[verifier::spinoff_prover]
#[verifier::rlimit(30)]
proof fn lemma_taps_in_place(settings: StratagemInputSettings, code: Seq<Direction>)
    requires
        code.len() > 0,
    ensures
        tap_steps(settings, code).len() == 2 * code.len() - 1,
        forall|i: int|
            #![trigger code[i]]
            0 <= i < code.len() ==> {
                &&& tap_steps(settings, code)[2 * i] == (InputStep::Tap {
                    key: settings.key_for(code[i]),
                    hold_ms: settings.key_hold_ms,
                })
                &&& i < code.len() - 1 ==> tap_steps(settings, code)[2 * i + 1]
                    == InputStep::Wait(settings.key_gap_ms)
            },
    decreases code.len(),
{
    let steps = tap_steps(settings, code);
    lemma_tap_count(settings, code);
    if code.len() > 1 {
        let before = code.drop_last();
        lemma_taps_in_place(settings, before);
        let held = tap_steps(settings, before);
        assert forall|i: int| #![trigger code[i]] 0 <= i < code.len() implies {
            &&& steps[2 * i] == (InputStep::Tap {
                key: settings.key_for(code[i]),
                hold_ms: settings.key_hold_ms,
            })
            &&& i < code.len() - 1 ==> steps[2 * i + 1] == InputStep::Wait(settings.key_gap_ms)
        } by {
            if i < before.len() {
                assert(before[i] == code[i]);
                assert(steps[2 * i] == held[2 * i]);
                if i < before.len() - 1 {
                    assert(steps[2 * i + 1] == held[2 * i + 1]);
                }
            }
        }
    }
}

/// The steps that enter a code, each at its place: the menu key, a wait, then for every
/// direction of the code a tap of the key that is set for it, with a gap between each
/// two, and in hold mode a wait and the release of the menu key.
#[verifier::spinoff_prover]
#[verifier::rlimit(30)]
pub proof fn lemma_plan_step_by_step(settings: StratagemInputSettings, code: Seq<Direction>)
    requires
        code.len() > 0,
    ensures
        ({
            let plan = input_plan(settings, code);
            let n = code.len() as int;
            &&& plan.len() == 2 * n + 1 + (if settings.menu_mode == MenuMode::Hold {
                2int
            } else {
                0int
            })
            &&& settings.menu_mode == MenuMode::Hold ==> {
                &&& plan[0] == InputStep::Press(settings.menu_key)
                &&& plan[2 * n + 1] == InputStep::Wait(settings.menu_release_delay_ms)
                &&& plan[2 * n + 2] == InputStep::Release(settings.menu_key)
            }
            &&& settings.menu_mode == MenuMode::Press ==> plan[0] == (InputStep::Tap {
                key: settings.menu_key,
                hold_ms: settings.key_hold_ms,
            })
            &&& plan[1] == InputStep::Wait(settings.menu_open_delay_ms)
            &&& forall|i: int|
                0 <= i < n ==> {
                    &&& #[trigger] code[i] == Direction::Up ==> plan[2 + 2 * i] == (
                    InputStep::Tap { key: settings.direction_up, hold_ms: settings.key_hold_ms })
                    &&& code[i] == Direction::Down ==> plan[2 + 2 * i] == (InputStep::Tap {
                        key: settings.direction_down,
                        hold_ms: settings.key_hold_ms,
                    })
                    &&& code[i] == Direction::Left ==> plan[2 + 2 * i] == (InputStep::Tap {
                        key: settings.direction_left,
                        hold_ms: settings.key_hold_ms,
                    })
                    &&& code[i] == Direction::Right ==> plan[2 + 2 * i] == (InputStep::Tap {
                        key: settings.direction_right,
                        hold_ms: settings.key_hold_ms,
                    })
                    &&& i < n - 1 ==> plan[3 + 2 * i] == InputStep::Wait(settings.key_gap_ms)
                }
        }),
{
    lemma_taps_in_place(settings, code);
    let plan = input_plan(settings, code);
    let taps = tap_steps(settings, code);
    assert forall|i: int| 0 <= i < code.len() implies plan[2 + 2 * i] == (InputStep::Tap {
        key: settings.key_for(#[trigger] code[i]),
        hold_ms: settings.key_hold_ms,
    }) && (i < code.len() - 1 ==> plan[3 + 2 * i] == InputStep::Wait(settings.key_gap_ms)) by {
        assert(plan[2 + 2 * i] == taps[2 * i]);
        if i < code.len() - 1 {
            assert(plan[3 + 2 * i] == taps[2 * i + 1]);
        }
    }
}

/// Settings are valid exactly when no delay is longer than a second, keys are held for
/// some time, and the menu key and the four direction keys are five different keys.
pub proof fn lemma_valid_settings(settings: StratagemInputSettings)
    ensures
        settings.problem() is None <==> {
            &&& settings.menu_open_delay_ms <= 1_000
            &&& 0 < settings.key_hold_ms <= 1_000
            &&& settings.key_gap_ms <= 1_000
            &&& settings.menu_release_delay_ms <= 1_000
            &&& settings.menu_key != settings.direction_up
            &&& settings.menu_key != settings.direction_down
            &&& settings.menu_key != settings.direction_left
            &&& settings.menu_key != settings.direction_right
            &&& settings.direction_up != settings.direction_down
            &&& settings.direction_up != settings.direction_left
            &&& settings.direction_up != settings.direction_right
            &&& settings.direction_down != settings.direction_left
            &&& settings.direction_down != settings.direction_right
            &&& settings.direction_left != settings.direction_right
        },
        settings.problem() matches Some(InputError::DelayTooLong { field, value }) ==> value > 1_000
            && value == match field {
            DelayField::MenuOpen => settings.menu_open_delay_ms,
            DelayField::KeyHold => settings.key_hold_ms,
            DelayField::KeyGap => settings.key_gap_ms,
            DelayField::MenuRelease => settings.menu_release_delay_ms,
        },
        settings.problem() == Some(InputError::ZeroHold) ==> settings.key_hold_ms == 0,
        settings.problem() == Some(InputError::MenuKeyIsDirection) ==> settings.menu_key
            == settings.direction_up || settings.menu_key == settings.direction_down
            || settings.menu_key == settings.direction_left || settings.menu_key
            == settings.direction_right,
        settings.problem() != Some(InputError::EmptyCode),
{
    assert(settings.key_for(Direction::Up) == settings.direction_up);
    assert(settings.key_for(Direction::Down) == settings.direction_down);
    assert(settings.key_for(Direction::Left) == settings.direction_left);
    assert(settings.key_for(Direction::Right) == settings.direction_right);
}

/// Setting the key of a direction sets that key, and no other.
pub proof fn lemma_direction_is_set(settings: StratagemInputSettings, key: Key)
    ensures
        settings.with_direction(Direction::Up, key) == (StratagemInputSettings {
            direction_up: key,
            ..settings
        }),
        settings.with_direction(Direction::Down, key) == (StratagemInputSettings {
            direction_down: key,
            ..settings
        }),
        settings.with_direction(Direction::Left, key) == (StratagemInputSettings {
            direction_left: key,
            ..settings
        }),
        settings.with_direction(Direction::Right, key) == (StratagemInputSettings {
            direction_right: key,
            ..settings
        }),
        forall|direction: Direction| #[trigger]
            settings.with_direction(direction, key).key_for(direction) == key,
        settings.key_for(Direction::Up) == settings.direction_up,
        settings.key_for(Direction::Down) == settings.direction_down,
        settings.key_for(Direction::Left) == settings.direction_left,
        settings.key_for(Direction::Right) == settings.direction_right,
{
}

/// The layouts are the arrow keys, and W, A, S and D for up, left, down and right. The
/// layout of a fresh installation is the arrow keys, with the left control key for the
/// menu, which is held.
pub proof fn lemma_layouts(settings: StratagemInputSettings)
    ensures
        settings.with_layout(DirectionKeys::Arrows) == (StratagemInputSettings {
            direction_up: Key::Up,
            direction_down: Key::Down,
            direction_left: Key::Left,
            direction_right: Key::Right,
            ..settings
        }),
        settings.with_layout(DirectionKeys::Wasd) == (StratagemInputSettings {
            direction_up: Key::W,
            direction_down: Key::S,
            direction_left: Key::A,
            direction_right: Key::D,
            ..settings
        }),
        StratagemInputSettings::defaults().with_layout(DirectionKeys::Arrows)
            == StratagemInputSettings::defaults(),
        StratagemInputSettings::defaults().menu_key == Key::LCtrl,
        StratagemInputSettings::defaults().menu_mode == MenuMode::Hold,
{
}

/// Which problem is told: a delay that is too long before a hold that is zero, that before a
/// menu key that is also a direction key, and that before a key that is set for two
/// directions.
pub proof fn lemma_first_problem(settings: StratagemInputSettings)
    ensures
        ({
            let too_long = settings.menu_open_delay_ms > 1_000 || settings.key_hold_ms > 1_000
                || settings.key_gap_ms > 1_000 || settings.menu_release_delay_ms > 1_000;
            let menu_taken = settings.menu_key == settings.direction_up || settings.menu_key
                == settings.direction_down || settings.menu_key == settings.direction_left
                || settings.menu_key == settings.direction_right;
            &&& too_long <==> settings.problem() is Some && settings.problem()->0 is DelayTooLong
            &&& !too_long && settings.key_hold_ms == 0 <==> settings.problem() == Some(
                InputError::ZeroHold,
            )
            &&& !too_long && settings.key_hold_ms > 0 && menu_taken <==> settings.problem()
                == Some(InputError::MenuKeyIsDirection)
            &&& settings.problem() matches Some(InputError::RepeatedDirectionKey(key)) ==> {
                ||| key == settings.direction_up && key == settings.direction_down
                ||| key == settings.direction_left && (key == settings.direction_up || key
                    == settings.direction_down)
                ||| key == settings.direction_right && (key == settings.direction_up || key
                    == settings.direction_down || key == settings.direction_left)
            }
            &&& settings.menu_open_delay_ms > 1_000 ==> settings.problem() == Some(
                InputError::DelayTooLong {
                    field: DelayField::MenuOpen,
                    value: settings.menu_open_delay_ms,
                },
            )
            &&& settings.menu_open_delay_ms <= 1_000 && settings.key_hold_ms > 1_000
                ==> settings.problem() == Some(
                InputError::DelayTooLong {
                    field: DelayField::KeyHold,
                    value: settings.key_hold_ms,
                },
            )
        }),
{
    assert(settings.key_for(Direction::Up) == settings.direction_up);
    assert(settings.key_for(Direction::Down) == settings.direction_down);
    assert(settings.key_for(Direction::Left) == settings.direction_left);
    assert(settings.key_for(Direction::Right) == settings.direction_right);
}

} // verus!
