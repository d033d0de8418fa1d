//! What the viewer shows and how user input changes it.
use vstd::prelude::*;

verus! {

/// Which planes are shown.
#[derive(Debug, Clone, Copy, PartialEq, Eq, Structural)]
pub enum Channel {
    /// All three planes, in colour.
    YUV,
    Y,
    U,
    V,
}

/// Which frame is shown.
#[derive(Debug, Clone, Copy, PartialEq, Eq, Structural)]
pub enum ViewFrame {
    FrameA,
    FrameB,
    /// The scaled difference of the two.
    Diff,
}

/// A request of the user.
#[derive(Debug, Clone, Copy, PartialEq, Eq, Structural)]
pub enum UserInput {
    Quit,
    Next,
    Prev,
    FirstFrame,
    GridToggle,
    ShowChannel(Channel),
    ShowFrame(ViewFrame),
    Click(i32, i32),
}

/// An event of the window system, reduced to what the viewer reads of it.
#[derive(Debug, Clone, Copy, PartialEq, Eq, Structural)]
pub enum InputEvent {
    /// The window was closed.
    Quit,
    /// A key went down; its key code, where it has one.
    KeyDown(Option<i32>),
    /// A mouse button went up at a position; whether it was the left one.
    MouseUp { left: bool, x: i32, y: i32 },
    Other,
}

/// What a request asks of the two files.
#[derive(Debug, Clone, Copy, PartialEq, Eq, Structural)]
pub enum FrameAction {
    Next,
    Prev,
    FirstFrame,
}

/// The viewer's display settings.
#[derive(Debug, Clone, Copy, PartialEq, Eq, Structural)]
pub struct UiSettings {
    pub show_grid: bool,
    pub channel: Channel,
    pub viewed: ViewFrame,
    /// Side of a macroblock, in luma samples.
    pub mblock_size: usize,
    pub diff_multiplier: u32,
    /// Top-left corner of the selected macroblock, in luma samples.
    pub mblock_x: usize,
    pub mblock_y: usize,
}

/// A clickable area of the window. A click inside it selects the macroblock under the
/// click, the click being taken relative to the area's top-left corner.
#[derive(Debug, Clone, Copy, PartialEq, Eq, Structural)]
pub struct Button {
    pub left: i32,
    pub top: i32,
    pub right: i32,
    pub bottom: i32,
}

/// Key codes of the letter keys the viewer reads (those of the lower-case letters).
pub const KEY_A: i32 = 97;
pub const KEY_B: i32 = 98;
pub const KEY_C: i32 = 99;
pub const KEY_D: i32 = 100;
pub const KEY_G: i32 = 103;
pub const KEY_N: i32 = 110;
pub const KEY_P: i32 = 112;
pub const KEY_Q: i32 = 113;
pub const KEY_R: i32 = 114;
pub const KEY_U: i32 = 117;
pub const KEY_V: i32 = 118;
pub const KEY_Y: i32 = 121;

/// What a run of requests asks beyond changes of the settings.
pub struct InputOutcome {
    /// Some request asked to quit.
    pub quit: bool,
    /// The requests for other frames, in order.
    pub frame_actions: Vec<FrameAction>,
}

/// The request a key stands for.
pub open spec fn key_input(k: i32) -> Option<UserInput> {
    if k == KEY_Q {
        Some(UserInput::Quit)
    } else if k == KEY_N {
        Some(UserInput::Next)
    } else if k == KEY_P {
        Some(UserInput::Prev)
    } else if k == KEY_R {
        Some(UserInput::FirstFrame)
    } else if k == KEY_G {
        Some(UserInput::GridToggle)
    } else if k == KEY_C {
        Some(UserInput::ShowChannel(Channel::YUV))
    } else if k == KEY_Y {
        Some(UserInput::ShowChannel(Channel::Y))
    } else if k == KEY_U {
        Some(UserInput::ShowChannel(Channel::U))
    } else if k == KEY_V {
        Some(UserInput::ShowChannel(Channel::V))
    } else if k == KEY_A {
        Some(UserInput::ShowFrame(ViewFrame::FrameA))
    } else if k == KEY_B {
        Some(UserInput::ShowFrame(ViewFrame::FrameB))
    } else if k == KEY_D {
        Some(UserInput::ShowFrame(ViewFrame::Diff))
    } else {
        None
    }
}

/// The request an event stands for, if any.
pub open spec fn event_input(ev: InputEvent) -> Option<UserInput> {
    match ev {
        InputEvent::Quit => Some(UserInput::Quit),
        InputEvent::KeyDown(Some(k)) => key_input(k),
        InputEvent::MouseUp { left, x, y } => if left {
            Some(UserInput::Click(x, y))
        } else {
            None
        },
        _ => None,
    }
}

/// The requests a run of events stands for, in order.
pub open spec fn events_inputs(evs: Seq<InputEvent>) -> Seq<UserInput>
    decreases evs.len(),
{
    if evs.len() == 0 {
        Seq::empty()
    } else {
        let before = events_inputs(evs.drop_last());
        match event_input(evs.last()) {
            Some(i) => before.push(i),
            None => before,
        }
    }
}

/// What a request asks of the two files.
pub open spec fn input_frame_action(i: UserInput) -> Option<FrameAction> {
    match i {
        UserInput::Next => Some(FrameAction::Next),
        UserInput::Prev => Some(FrameAction::Prev),
        UserInput::FirstFrame => Some(FrameAction::FirstFrame),
        _ => None,
    }
}

/// What a run of requests asks of the two files, in order.
pub open spec fn inputs_frame_actions(inputs: Seq<UserInput>) -> Seq<FrameAction>
    decreases inputs.len(),
{
    if inputs.len() == 0 {
        Seq::empty()
    } else {
        let before = inputs_frame_actions(inputs.drop_last());
        match input_frame_action(inputs.last()) {
            Some(a) => before.push(a),
            None => before,
        }
    }
}

/// Some request of the run asks to quit.
pub open spec fn inputs_quit(inputs: Seq<UserInput>) -> bool {
    exists|j: int| 0 <= j < inputs.len() && inputs[j] == UserInput::Quit
}

/// A click at `(x, y)`, taken relative to each button it falls in, stays within `i32`.
pub open spec fn click_fits(buttons: Seq<Button>, x: i32, y: i32) -> bool {
    forall|i: int|
        0 <= i < buttons.len() && (#[trigger] buttons[i]).contains(x, y) ==> x - buttons[i].left
            <= i32::MAX && y - buttons[i].top <= i32::MAX
}

/// Every click of the run fits.
pub open spec fn clicks_fit(buttons: Seq<Button>, inputs: Seq<UserInput>) -> bool {
    forall|j: int|
        0 <= j < inputs.len() ==> match #[trigger] inputs[j] {
            UserInput::Click(x, y) => click_fits(buttons, x, y),
            _ => true,
        }
}

impl UserInput {
    /// The request a key stands for, if any.
    pub fn from_key(k: i32) -> (r: Option<UserInput>)
        ensures
            r == key_input(k),
    {
        if k == KEY_Q {
            Some(UserInput::Quit)
        } else if k == KEY_N {
            Some(UserInput::Next)
        } else if k == KEY_P {
            Some(UserInput::Prev)
        } else if k == KEY_R {
            Some(UserInput::FirstFrame)
        } else if k == KEY_G {
            Some(UserInput::GridToggle)
        } else if k == KEY_C {
            Some(UserInput::ShowChannel(Channel::YUV))
        } else if k == KEY_Y {
            Some(UserInput::ShowChannel(Channel::Y))
        } else if k == KEY_U {
            Some(UserInput::ShowChannel(Channel::U))
        } else if k == KEY_V {
            Some(UserInput::ShowChannel(Channel::V))
        } else if k == KEY_A {
            Some(UserInput::ShowFrame(ViewFrame::FrameA))
        } else if k == KEY_B {
            Some(UserInput::ShowFrame(ViewFrame::FrameB))
        } else if k == KEY_D {
            Some(UserInput::ShowFrame(ViewFrame::Diff))
        } else {
            None
        }
    }

    /// The request an event stands for: closing the window or `Q` quits, `N`, `P` and
    /// `R` go to the next, previous and first frames, `G` toggles the grid, `C`, `Y`,
    /// `U`, `V` choose the channel, `A`, `B`, `D` the frame, and a release of the left
    /// mouse button clicks.
    pub fn from_event(ev: InputEvent) -> (r: Option<UserInput>)
        ensures
            r == event_input(ev),
    {
        match ev {
            InputEvent::Quit => Some(UserInput::Quit),
            InputEvent::KeyDown(Some(k)) => UserInput::from_key(k),
            InputEvent::MouseUp { left, x, y } => if left {
                Some(UserInput::Click(x, y))
            } else {
                None
            },
            _ => None,
        }
    }
}

/// The requests that a run of window events stands for, in order.
pub fn fetch_inputs(events: &Vec<InputEvent>) -> (r: Vec<UserInput>)
    ensures
        r@ == events_inputs(events@),
{
    let mut inputs: Vec<UserInput> = Vec::new();
    let mut i: usize = 0;
    while i < events.len()
        invariant
            i <= events.len(),
            inputs@ == events_inputs(events@.take(i as int)),
        decreases events.len() - i,
    {
        assert(events@.take(i + 1).drop_last() == events@.take(i as int));
        match UserInput::from_event(events[i]) {
            Some(inp) => inputs.push(inp),
            None => {},
        }
        i = i + 1;
    }
    assert(events@.take(events.len() as int) == events@);
    inputs
}

/// The settings the viewer starts with.
pub open spec fn default_settings() -> UiSettings {
    UiSettings {
        show_grid: false,
        channel: Channel::Y,
        viewed: ViewFrame::FrameA,
        mblock_size: 16,
        diff_multiplier: 5,
        mblock_x: 0,
        mblock_y: 0,
    }
}

/// `v` rounded down to a multiple of `size`, `v` taken as an unsigned size.
pub open spec fn block_origin(v: i32, size: usize) -> usize {
    (((v as usize) / size) * size) as usize
}

/// `text` is the single letter `upper` or `lower`.
pub open spec fn is_word(text: Seq<char>, upper: char, lower: char) -> bool {
    text.len() == 1 && (text[0] == upper || text[0] == lower)
}

/// The channel a command-line word names.
pub open spec fn channel_named(text: Seq<char>) -> Option<Channel> {
    if is_word(text, 'C', 'c') {
        Some(Channel::YUV)
    } else if is_word(text, 'Y', 'y') {
        Some(Channel::Y)
    } else if is_word(text, 'U', 'u') {
        Some(Channel::U)
    } else if is_word(text, 'V', 'v') {
        Some(Channel::V)
    } else {
        None
    }
}

/// The frame a command-line word names.
pub open spec fn view_named(text: Seq<char>) -> Option<ViewFrame> {
    if is_word(text, 'A', 'a') {
        Some(ViewFrame::FrameA)
    } else if is_word(text, 'B', 'b') {
        Some(ViewFrame::FrameB)
    } else if is_word(text, 'D', 'd') {
        Some(ViewFrame::Diff)
    } else {
        None
    }
}

impl Button {
    /// `(x, y)` lies strictly inside the area.
    pub open spec fn contains(self, x: i32, y: i32) -> bool {
        x < self.right && x > self.left && y < self.bottom && y > self.top
    }

    /// The area with the given sides.
    pub fn new(left: i32, top: i32, right: i32, bottom: i32) -> (r: Button)
        ensures
            r == (Button { left, top, right, bottom }),
    {
        Button { left, top, right, bottom }
    }

    /// The left side.
    pub fn x(&self) -> (r: i32)
        ensures
            r == self.left,
    {
        self.left
    }

    /// The top side.
    pub fn y(&self) -> (r: i32)
        ensures
            r == self.top,
    {
        self.top
    }

    /// Whether `(x, y)` lies strictly inside the area.
    pub fn inside(&self, x: i32, y: i32) -> (r: bool)
        ensures
            r == self.contains(x, y),
    {
        let l = self.left;
        let r = self.right;
        let t = self.top;
        let b = self.bottom;
        x < r && x > l && y < b && y > t
    }
}

impl UiSettings {
    /// The settings with the macroblock under `(x, y)` selected.
    pub open spec fn with_mblock_at(self, x: i32, y: i32) -> UiSettings {
        UiSettings {
            mblock_x: block_origin(x, self.mblock_size),
            mblock_y: block_origin(y, self.mblock_size),
            ..self
        }
    }

    /// The settings after a click at `(x, y)`, given to each button in turn.
    pub open spec fn clicked(self, buttons: Seq<Button>, x: i32, y: i32) -> UiSettings
        decreases buttons.len(),
    {
        if buttons.len() == 0 {
            self
        } else {
            let before = self.clicked(buttons.drop_last(), x, y);
            let b = buttons.last();
            if b.contains(x, y) {
                before.with_mblock_at((x - b.left) as i32, (y - b.top) as i32)
            } else {
                before
            }
        }
    }

    /// The settings after one request.
    pub open spec fn after_input(self, buttons: Seq<Button>, input: UserInput) -> UiSettings {
        match input {
            UserInput::ShowChannel(c) => UiSettings { channel: c, ..self },
            UserInput::ShowFrame(f) => UiSettings { viewed: f, ..self },
            UserInput::GridToggle => UiSettings { show_grid: !self.show_grid, ..self },
            UserInput::Click(x, y) => self.clicked(buttons, x, y),
            _ => self,
        }
    }

    /// The settings after a run of requests, taken in order.
    pub open spec fn after_inputs(self, buttons: Seq<Button>, inputs: Seq<UserInput>) -> UiSettings
        decreases inputs.len(),
    {
        if inputs.len() == 0 {
            self
        } else {
            self.after_inputs(buttons, inputs.drop_last()).after_input(buttons, inputs.last())
        }
    }

    /// The settings the viewer starts with: luma plane of frame A, no grid,
    /// sixteen-sample macroblocks, the one at the origin selected, differences
    /// multiplied by five.
    pub fn defaults() -> (r: UiSettings)
        ensures
            r == default_settings(),
    {
        UiSettings {
            show_grid: false,
            channel: Channel::Y,
            viewed: ViewFrame::FrameA,
            mblock_size: 16,
            diff_multiplier: 5,
            mblock_x: 0,
            mblock_y: 0,
        }
    }

    pub fn show_channel(&mut self, c: Channel)
        ensures
            *final(self) == (UiSettings { channel: c, ..*old(self) }),
    {
        self.channel = c;
    }

    pub fn show_frame(&mut self, f: ViewFrame)
        ensures
            *final(self) == (UiSettings { viewed: f, ..*old(self) }),
    {
        self.viewed = f;
    }

    pub fn toggle_grid(&mut self)
        ensures
            *final(self) == (UiSettings { show_grid: !old(self).show_grid, ..*old(self) }),
    {
        self.show_grid = !self.show_grid;
    }

    /// Selects the macroblock under `(x, y)`: its corner is `(x, y)` rounded down to
    /// multiples of the macroblock size.
    pub fn mblock_set(&mut self, x: i32, y: i32)
        requires
            old(self).mblock_size > 0,
        ensures
            *final(self) == old(self).with_mblock_at(x, y),
    {
        let s = self.mblock_size;
        let ux = x as usize;
        let uy = y as usize;
        assert((ux / s) * s <= ux) by (nonlinear_arith)
            requires
                s > 0,
        ;
        assert((uy / s) * s <= uy) by (nonlinear_arith)
            requires
                s > 0,
        ;
        self.mblock_x = (ux / s) * s;
        self.mblock_y = (uy / s) * s;
    }

    /// Shows the channel that `text` names: `C` (all planes), `Y`, `U` or `V`, in
    /// either case.
    pub fn set_channel(&mut self, text: &str) -> (r: Result<(), &'static str>)
        ensures
            match channel_named(text@) {
                Some(c) => r is Ok && *final(self) == (UiSettings { channel: c, ..*old(self) }),
                None => r matches Err(e) && e@ == "Invalid channel argument"@ && *final(self)
                    == *old(self),
            },
    {
        if text.unicode_len() == 1 {
            let c = text.get_char(0);
            if c == 'C' || c == 'c' {
                self.show_channel(Channel::YUV);
                return Ok(());
            } else if c == 'Y' || c == 'y' {
                self.show_channel(Channel::Y);
                return Ok(());
            } else if c == 'U' || c == 'u' {
                self.show_channel(Channel::U);
                return Ok(());
            } else if c == 'V' || c == 'v' {
                self.show_channel(Channel::V);
                return Ok(());
            }
        }
        Err("Invalid channel argument")
    }

    /// Shows the frame that `text` names: `A`, `B` or `D` (the difference), in either
    /// case.
    pub fn set_view(&mut self, text: &str) -> (r: Result<(), &'static str>)
        ensures
            match view_named(text@) {
                Some(f) => r is Ok && *final(self) == (UiSettings { viewed: f, ..*old(self) }),
                None => r matches Err(e) && e@ == "Incorrect view argument"@ && *final(self)
                    == *old(self),
            },
    {
        if text.unicode_len() == 1 {
            let c = text.get_char(0);
            if c == 'A' || c == 'a' {
                self.show_frame(ViewFrame::FrameA);
                return Ok(());
            } else if c == 'B' || c == 'b' {
                self.show_frame(ViewFrame::FrameB);
                return Ok(());
            } else if c == 'D' || c == 'd' {
                self.show_frame(ViewFrame::Diff);
                return Ok(());
            }
        }
        Err("Incorrect view argument")
    }

    /// Gives a click at `(x, y)` to each button in turn; each button that it falls in
    /// selects the macroblock under the click, taken relative to the button.
    pub fn check_clicks(&mut self, buttons: &Vec<Button>, x: i32, y: i32)
        requires
            old(self).mblock_size > 0,
            click_fits(buttons@, x, y),
        ensures
            *final(self) == old(self).clicked(buttons@, x, y),
            final(self).mblock_size == old(self).mblock_size,
    {
        let ghost start = *self;
        let mut i: usize = 0;
        while i < buttons.len()
            invariant
                i <= buttons.len(),
                click_fits(buttons@, x, y),
                start.mblock_size > 0,
                *self == start.clicked(buttons@.take(i as int), x, y),
                self.mblock_size == start.mblock_size,
            decreases buttons.len() - i,
        {
            assert(buttons@.take(i + 1).drop_last() == buttons@.take(i as int));
            let but = &buttons[i];
            if but.inside(x, y) {
                assert(buttons@[i as int].contains(x, y));
                self.mblock_set(x - but.x(), y - but.y());
            }
            i = i + 1;
        }
        assert(buttons@.take(buttons.len() as int) == buttons@);
    }

    /// Applies a run of requests in order: the display settings change at once, while
    /// the requests to quit and for other frames are handed back.
    pub fn process_inputs(&mut self, buttons: &Vec<Button>, inputs: &Vec<UserInput>) -> (r: InputOutcome)
        requires
            old(self).mblock_size > 0,
            clicks_fit(buttons@, inputs@),
        ensures
            *final(self) == old(self).after_inputs(buttons@, inputs@),
            r.quit == inputs_quit(inputs@),
            r.frame_actions@ == inputs_frame_actions(inputs@),
    {
        let ghost start = *self;
        let mut should_quit = false;
        let mut actions: Vec<FrameAction> = Vec::new();
        let mut i: usize = 0;
        while i < inputs.len()
            invariant
                i <= inputs.len(),
                clicks_fit(buttons@, inputs@),
                start.mblock_size > 0,
                self.mblock_size == start.mblock_size,
                *self == start.after_inputs(buttons@, inputs@.take(i as int)),
                should_quit == inputs_quit(inputs@.take(i as int)),
                actions@ == inputs_frame_actions(inputs@.take(i as int)),
            decreases inputs.len() - i,
        {
            let ghost pre = inputs@.take(i as int);
            let ghost post = inputs@.take(i + 1);
            assert(post.drop_last() == pre);
            assert(post.last() == inputs@[i as int]);
            let ghost was = *self;
            let ghost q = should_quit;
            match inputs[i] {
                UserInput::Next => actions.push(FrameAction::Next),
                UserInput::Prev => actions.push(FrameAction::Prev),
                UserInput::FirstFrame => actions.push(FrameAction::FirstFrame),
                UserInput::Quit => should_quit = true,
                UserInput::ShowChannel(c) => self.show_channel(c),
                UserInput::ShowFrame(f) => self.show_frame(f),
                UserInput::GridToggle => self.toggle_grid(),
                UserInput::Click(x, y) => {
                    assert(click_fits(buttons@, x, y));
                    self.check_clicks(buttons, x, y);
                },
            }
            proof {
                if inputs@[i as int] == UserInput::Quit {
                    assert(post[i as int] == UserInput::Quit);
                } else {
                    if q {
                        let j = choose|j: int| 0 <= j < pre.len() && pre[j] == UserInput::Quit;
                        assert(post[j] == UserInput::Quit);
                    }
                    if should_quit {
                        let j = choose|j: int| 0 <= j < post.len() && post[j] == UserInput::Quit;
                        assert(pre[j] == UserInput::Quit);
                    }
                }
            }
            i = i + 1;
        }
        assert(inputs@.take(inputs.len() as int) == inputs@);
        InputOutcome { quit: should_quit, frame_actions: actions }
    }

    pub fn set_diff_multiplier(&mut self, m: u32)
        ensures
            *final(self) == (UiSettings { diff_multiplier: m, ..*old(self) }),
    {
        self.diff_multiplier = m;
    }
}

/// The selected macroblock lies within a `w` x `h` frame.
pub open spec fn mblock_within(s: UiSettings, w: int, h: int) -> bool {
    s.mblock_x < w && s.mblock_y < h
}

/// Every button lies within a `w` x `h` frame.
pub open spec fn buttons_within(buttons: Seq<Button>, w: int, h: int) -> bool {
    forall|i: int|
        0 <= i < buttons.len() ==> {
            &&& (#[trigger] buttons[i]).left >= 0
            &&& buttons[i].top >= 0
            &&& buttons[i].right <= w
            &&& buttons[i].bottom <= h
        }
}

/// Toggling the grid twice leaves the settings as they were.
pub proof fn lemma_toggle_grid_twice(s: UiSettings, buttons: Seq<Button>)
    ensures
        s.after_input(buttons, UserInput::GridToggle).after_input(buttons, UserInput::GridToggle) == s,
{
}

/// The selected macroblock is the one under the click: its corner is a multiple of the
/// macroblock size, at most the click position and less than one macroblock before it;
/// nothing else changes.
pub proof fn lemma_mblock_aligned(s: UiSettings, x: i32, y: i32)
    requires
        s.mblock_size > 0,
        x >= 0,
        y >= 0,
    ensures
        s.with_mblock_at(x, y).mblock_x % s.mblock_size == 0,
        s.with_mblock_at(x, y).mblock_y % s.mblock_size == 0,
        s.with_mblock_at(x, y).mblock_x <= x < s.with_mblock_at(x, y).mblock_x + s.mblock_size,
        s.with_mblock_at(x, y).mblock_y <= y < s.with_mblock_at(x, y).mblock_y + s.mblock_size,
        s.with_mblock_at(x, y) == (UiSettings {
            mblock_x: s.with_mblock_at(x, y).mblock_x,
            mblock_y: s.with_mblock_at(x, y).mblock_y,
            ..s
        }),
{
    let m = s.mblock_size as int;
    let ux = (x as usize) as int;
    let uy = (y as usize) as int;
    assert(ux == x && uy == y);
    assert(((ux / m) * m) % m == 0 && (ux / m) * m <= ux < (ux / m) * m + m) by (nonlinear_arith)
        requires
            m > 0,
            ux >= 0,
    ;
    assert(((uy / m) * m) % m == 0 && (uy / m) * m <= uy < (uy / m) * m + m) by (nonlinear_arith)
        requires
            m > 0,
            uy >= 0,
    ;
}

proof fn lemma_origin_below(v: int, m: int)
    by (nonlinear_arith)
    requires
        m > 0,
        v >= 0,
    ensures
        (v / m) * m <= v,
{
}

/// A click given to buttons that lie within the frame keeps the selected macroblock
/// within the frame and the macroblock size unchanged.
pub proof fn lemma_clicked_within(s: UiSettings, buttons: Seq<Button>, x: i32, y: i32, w: int, h: int)
    requires
        s.mblock_size > 0,
        mblock_within(s, w, h),
        buttons_within(buttons, w, h),
    ensures
        mblock_within(s.clicked(buttons, x, y), w, h),
        s.clicked(buttons, x, y).mblock_size == s.mblock_size,
    decreases buttons.len(),
{
    if buttons.len() > 0 {
        let rest = buttons.drop_last();
        assert(buttons_within(rest, w, h)) by {
            assert forall|i: int| 0 <= i < rest.len() implies (#[trigger] rest[i]).left >= 0
                && rest[i].top >= 0 && rest[i].right <= w && rest[i].bottom <= h by {
                assert(rest[i] == buttons[i]);
            }
        }
        lemma_clicked_within(s, rest, x, y, w, h);
        let before = s.clicked(rest, x, y);
        let b = buttons.last();
        assert(b == buttons[buttons.len() - 1]);
        if b.contains(x, y) {
            let rx = (x - b.left) as i32;
            let ry = (y - b.top) as i32;
            assert(0 < rx < w);
            assert(0 < ry < h);
            assert((rx as usize) as int == rx);
            assert((ry as usize) as int == ry);
            lemma_origin_below(rx as int, before.mblock_size as int);
            lemma_origin_below(ry as int, before.mblock_size as int);
        }
    }
}

/// A run of requests keeps the selected macroblock within the frame when every button
/// lies within it, and never changes the macroblock size.
pub proof fn lemma_inputs_keep_mblock_within(
    s: UiSettings,
    buttons: Seq<Button>,
    inputs: Seq<UserInput>,
    w: int,
    h: int,
)
    requires
        s.mblock_size > 0,
        mblock_within(s, w, h),
        buttons_within(buttons, w, h),
    ensures
        mblock_within(s.after_inputs(buttons, inputs), w, h),
        s.after_inputs(buttons, inputs).mblock_size == s.mblock_size,
    decreases inputs.len(),
{
    if inputs.len() > 0 {
        lemma_inputs_keep_mblock_within(s, buttons, inputs.drop_last(), w, h);
        let before = s.after_inputs(buttons, inputs.drop_last());
        match inputs.last() {
            UserInput::Click(x, y) => {
                lemma_clicked_within(before, buttons, x, y, w, h);
            },
            _ => {},
        }
    }
}

/// A click changes nothing but the selected macroblock.
pub proof fn lemma_clicked_moves_only_mblock(s: UiSettings, buttons: Seq<Button>, x: i32, y: i32)
    ensures
        s.clicked(buttons, x, y) == (UiSettings {
            mblock_x: s.clicked(buttons, x, y).mblock_x,
            mblock_y: s.clicked(buttons, x, y).mblock_y,
            ..s
        }),
    decreases buttons.len(),
{
    if buttons.len() > 0 {
        lemma_clicked_moves_only_mblock(s, buttons.drop_last(), x, y);
    }
}

/// A request to show a frame shows that frame, a request to show a channel shows that
/// channel, and a grid toggle flips the grid; each changes nothing else. A request for
/// another frame of the files, or to quit, leaves the settings as they are.
pub proof fn lemma_requests_do_what_they_say(s: UiSettings, buttons: Seq<Button>, f: ViewFrame, c: Channel)
    ensures
        s.after_input(buttons, UserInput::ShowFrame(f)).viewed == f,
        s.after_input(buttons, UserInput::ShowFrame(f)) == (UiSettings { viewed: f, ..s }),
        s.after_input(buttons, UserInput::ShowChannel(c)).channel == c,
        s.after_input(buttons, UserInput::ShowChannel(c)) == (UiSettings { channel: c, ..s }),
        s.after_input(buttons, UserInput::GridToggle).show_grid != s.show_grid,
        s.after_input(buttons, UserInput::GridToggle) == (UiSettings { show_grid: !s.show_grid, ..s }),
        s.after_input(buttons, UserInput::Next) == s,
        s.after_input(buttons, UserInput::Prev) == s,
        s.after_input(buttons, UserInput::FirstFrame) == s,
        s.after_input(buttons, UserInput::Quit) == s,
{
}

/// A request other than showing a frame keeps the frame shown; one other than showing a
/// channel keeps the channel.
pub proof fn lemma_other_requests_keep_view(s: UiSettings, buttons: Seq<Button>, i: UserInput)
    ensures
        !(i is ShowFrame) ==> s.after_input(buttons, i).viewed == s.viewed,
        !(i is ShowChannel) ==> s.after_input(buttons, i).channel == s.channel,
{
    match i {
        UserInput::Click(x, y) => lemma_clicked_moves_only_mblock(s, buttons, x, y),
        _ => {},
    }
}

/// After a run of requests, the frame shown is the one the last request to show a frame
/// asked for.
pub proof fn lemma_last_show_frame_wins(s: UiSettings, buttons: Seq<Button>, inputs: Seq<UserInput>, j: int)
    requires
        0 <= j < inputs.len(),
        inputs[j] is ShowFrame,
        forall|k: int| j < k < inputs.len() ==> !(#[trigger] inputs[k] is ShowFrame),
    ensures
        s.after_inputs(buttons, inputs).viewed == inputs[j]->ShowFrame_0,
    decreases inputs.len(),
{
    let last = inputs.len() - 1;
    let before = s.after_inputs(buttons, inputs.drop_last());
    if j == last {
        assert(inputs.last() == inputs[j]);
    } else {
        assert(!(inputs[last] is ShowFrame));
        assert(inputs.drop_last()[j] == inputs[j]);
        assert forall|k: int| j < k < inputs.drop_last().len() implies !(#[trigger] inputs.drop_last()[k] is ShowFrame) by {
            assert(inputs.drop_last()[k] == inputs[k]);
        }
        lemma_last_show_frame_wins(s, buttons, inputs.drop_last(), j);
        lemma_other_requests_keep_view(before, buttons, inputs.last());
    }
}

/// After a run of requests, the channel shown is the one the last request to show a
/// channel asked for.
pub proof fn lemma_last_show_channel_wins(s: UiSettings, buttons: Seq<Button>, inputs: Seq<UserInput>, j: int)
    requires
        0 <= j < inputs.len(),
        inputs[j] is ShowChannel,
        forall|k: int| j < k < inputs.len() ==> !(#[trigger] inputs[k] is ShowChannel),
    ensures
        s.after_inputs(buttons, inputs).channel == inputs[j]->ShowChannel_0,
    decreases inputs.len(),
{
    let last = inputs.len() - 1;
    let before = s.after_inputs(buttons, inputs.drop_last());
    if j == last {
        assert(inputs.last() == inputs[j]);
    } else {
        assert(!(inputs[last] is ShowChannel));
        assert(inputs.drop_last()[j] == inputs[j]);
        assert forall|k: int| j < k < inputs.drop_last().len() implies !(#[trigger] inputs.drop_last()[k] is ShowChannel) by {
            assert(inputs.drop_last()[k] == inputs[k]);
        }
        lemma_last_show_channel_wins(s, buttons, inputs.drop_last(), j);
        lemma_other_requests_keep_view(before, buttons, inputs.last());
    }
}

/// A run without requests to show a frame or a channel keeps both.
pub proof fn lemma_runs_without_show_keep_view(s: UiSettings, buttons: Seq<Button>, inputs: Seq<UserInput>)
    requires
        forall|k: int| 0 <= k < inputs.len() ==> !(#[trigger] inputs[k] is ShowFrame) && !(inputs[k] is ShowChannel),
    ensures
        s.after_inputs(buttons, inputs).viewed == s.viewed,
        s.after_inputs(buttons, inputs).channel == s.channel,
    decreases inputs.len(),
{
    if inputs.len() > 0 {
        assert forall|k: int| 0 <= k < inputs.drop_last().len() implies !(#[trigger] inputs.drop_last()[k] is ShowFrame)
            && !(inputs.drop_last()[k] is ShowChannel) by {
            assert(inputs.drop_last()[k] == inputs[k]);
        }
        lemma_runs_without_show_keep_view(s, buttons, inputs.drop_last());
        assert(inputs.last() == inputs[inputs.len() - 1]);
        lemma_other_requests_keep_view(s.after_inputs(buttons, inputs.drop_last()), buttons, inputs.last());
    }
}

/// A key going down stands for the request of that key, whatever the key.
pub proof fn lemma_key_events_follow_keys(k: i32)
    ensures
        event_input(InputEvent::KeyDown(Some(k))) == key_input(k),
        event_input(InputEvent::KeyDown(None)) is None,
{
}

/// Every request but a click can be made from the keyboard, and no two keys make the
/// same request.
pub proof fn lemma_every_request_has_one_key(u: UserInput)
    ensures
        !(u is Click) ==> exists|k: i32| #[trigger] event_input(InputEvent::KeyDown(Some(k))) == Some(u),
        forall|k1: i32, k2: i32|
            #[trigger] key_input(k1) == Some(u) && #[trigger] key_input(k2) == Some(u) ==> k1 == k2,
{
    let k: i32 = match u {
        UserInput::Quit => KEY_Q,
        UserInput::Next => KEY_N,
        UserInput::Prev => KEY_P,
        UserInput::FirstFrame => KEY_R,
        UserInput::GridToggle => KEY_G,
        UserInput::ShowChannel(Channel::YUV) => KEY_C,
        UserInput::ShowChannel(Channel::Y) => KEY_Y,
        UserInput::ShowChannel(Channel::U) => KEY_U,
        UserInput::ShowChannel(Channel::V) => KEY_V,
        UserInput::ShowFrame(ViewFrame::FrameA) => KEY_A,
        UserInput::ShowFrame(ViewFrame::FrameB) => KEY_B,
        UserInput::ShowFrame(ViewFrame::Diff) => KEY_D,
        UserInput::Click(_, _) => 0,
    };
    if !(u is Click) {
        assert(event_input(InputEvent::KeyDown(Some(k))) == Some(u));
    }
}

/// The key that shows a channel or a frame is the letter of the word that names it on
/// the command line.
pub proof fn lemma_keys_match_words(ch: char, c: Channel, f: ViewFrame)
    requires
        'a' <= ch <= 'z',
    ensures
        key_input(ch as i32) == Some(UserInput::ShowChannel(c)) <==> channel_named(seq![ch]) == Some(c),
        key_input(ch as i32) == Some(UserInput::ShowFrame(f)) <==> view_named(seq![ch]) == Some(f),
{
}

/// The requests of two runs of events, one after the other, are those of the first run
/// followed by those of the second; one event stands for its own request or none.
pub proof fn lemma_events_inputs_concat(a: Seq<InputEvent>, b: Seq<InputEvent>)
    ensures
        events_inputs(a + b) == events_inputs(a) + events_inputs(b),
    decreases b.len(),
{
    if b.len() == 0 {
        assert(a + b == a);
        assert(events_inputs(b) == Seq::<UserInput>::empty());
        assert(events_inputs(a) + events_inputs(b) == events_inputs(a));
    } else {
        lemma_events_inputs_concat(a, b.drop_last());
        assert((a + b).drop_last() == a + b.drop_last());
        assert((a + b).last() == b.last());
        match event_input(b.last()) {
            Some(i) => {
                assert(events_inputs(a) + events_inputs(b.drop_last()).push(i) == (events_inputs(a)
                    + events_inputs(b.drop_last())).push(i));
            },
            None => {},
        }
    }
}

/// One event stands for its own request, or for none.
pub proof fn lemma_one_event(e: InputEvent)
    ensures
        events_inputs(seq![e]) == match event_input(e) {
            Some(i) => seq![i],
            None => Seq::<UserInput>::empty(),
        },
{
    assert(seq![e].drop_last() == Seq::<InputEvent>::empty());
    assert(seq![e].last() == e);
    assert(events_inputs(Seq::<InputEvent>::empty()) == Seq::<UserInput>::empty());
    match event_input(e) {
        Some(i) => assert(Seq::<UserInput>::empty().push(i) =~= seq![i]),
        None => {},
    }
}

/// The requests for other frames of two runs, one after the other, are those of the
/// first run followed by those of the second; only `Next`, `Prev` and `FirstFrame` ask
/// for other frames, each for its own.
pub proof fn lemma_frame_actions_concat(a: Seq<UserInput>, b: Seq<UserInput>)
    ensures
        inputs_frame_actions(a + b) == inputs_frame_actions(a) + inputs_frame_actions(b),
        input_frame_action(UserInput::Next) == Some(FrameAction::Next),
        input_frame_action(UserInput::Prev) == Some(FrameAction::Prev),
        input_frame_action(UserInput::FirstFrame) == Some(FrameAction::FirstFrame),
        forall|u: UserInput|
            !(u is Next || u is Prev || u is FirstFrame) ==> #[trigger] input_frame_action(u) is None,
    decreases b.len(),
{
    if b.len() == 0 {
        assert(a + b == a);
        assert(inputs_frame_actions(a) + inputs_frame_actions(b) == inputs_frame_actions(a));
    } else {
        lemma_frame_actions_concat(a, b.drop_last());
        assert((a + b).drop_last() == a + b.drop_last());
        assert((a + b).last() == b.last());
        match input_frame_action(b.last()) {
            Some(x) => {
                assert(inputs_frame_actions(a) + inputs_frame_actions(b.drop_last()).push(x) == (
                inputs_frame_actions(a) + inputs_frame_actions(b.drop_last())).push(x));
            },
            None => {},
        }
    }
}

} // verus!
