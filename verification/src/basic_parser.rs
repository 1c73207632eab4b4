//! The simpler escape-sequence parser of the standalone frontend: CSI and
//! ESC sequences, OSC strings terminated by BEL or ESC, and DCS strings that
//! are skipped.
use vstd::prelude::*;

verus! {

#[derive(Debug, Clone, Copy, PartialEq, Eq, Structural)]
pub enum State {
    Ground,
    Escape,
    EscapeIntermediate,
    CsiEntry,
    CsiParam,
    CsiIntermediate,
    OscString,
    DcsEntry,
}

/// At most this many CSI parameters are kept.
pub const MAX_PARAMS: usize = 16;

/// OSC payloads are cut at this many bytes.
pub const OSC_LIMIT: usize = 256;

#[derive(Debug, Clone, PartialEq, Eq)]
pub enum Action {
    Print(u8),
    Execute(u8),
    CsiDispatch { params_count: usize, intermediate: u8, final_byte: u8 },
    EscDispatch { intermediate: u8, final_byte: u8 },
    OscDispatch(Vec<u8>),
    Nop,
}

/// An action with its payload seen as a byte sequence.
pub enum ActionView {
    Print(u8),
    Execute(u8),
    CsiDispatch { params_count: nat, intermediate: u8, final_byte: u8 },
    EscDispatch { intermediate: u8, final_byte: u8 },
    OscDispatch(Seq<u8>),
    Nop,
}

impl View for Action {
    type V = ActionView;

    open spec fn view(&self) -> ActionView {
        match self {
            Action::Print(b) => ActionView::Print(*b),
            Action::Execute(b) => ActionView::Execute(*b),
            Action::CsiDispatch { params_count, intermediate, final_byte } => ActionView::CsiDispatch {
                params_count: *params_count as nat,
                intermediate: *intermediate,
                final_byte: *final_byte,
            },
            Action::EscDispatch { intermediate, final_byte } => ActionView::EscDispatch {
                intermediate: *intermediate,
                final_byte: *final_byte,
            },
            Action::OscDispatch(d) => ActionView::OscDispatch(d@),
            Action::Nop => ActionView::Nop,
        }
    }
}

pub struct ParserView {
    pub state: State,
    pub params: Seq<u16>,
    pub current_param: u16,
    pub intermediate: u8,
    pub osc_buf: Seq<u8>,
}

/// `10 * value + digit`, saturating at `u16::MAX`.
pub open spec fn decimal_step(value: u16, digit: u16) -> u16 {
    if value * 10 + digit > u16::MAX {
        u16::MAX
    } else {
        (value * 10 + digit) as u16
    }
}

impl ParserView {
    pub open spec fn initial() -> ParserView {
        ParserView {
            state: State::Ground,
            params: Seq::empty(),
            current_param: 0,
            intermediate: 0,
            osc_buf: Seq::empty(),
        }
    }

    /// At most sixteen parameters and an OSC payload within its limit.
    pub open spec fn wf(self) -> bool {
        &&& self.params.len() <= MAX_PARAMS
        &&& self.osc_buf.len() <= OSC_LIMIT
    }

    pub open spec fn goto(self, state: State) -> ParserView {
        ParserView { state, ..self }
    }

    pub open spec fn pushed(self, value: u16) -> ParserView {
        if self.params.len() < MAX_PARAMS {
            ParserView { params: self.params.push(value), ..self }
        } else {
            self
        }
    }

    pub open spec fn csi_reset(self) -> ParserView {
        ParserView { params: Seq::empty(), current_param: 0, intermediate: 0, ..self }
    }

    pub open spec fn csi_dispatch(self, final_byte: u8) -> ActionView {
        ActionView::CsiDispatch {
            params_count: self.params.len(),
            intermediate: self.intermediate,
            final_byte,
        }
    }

    /// The state and action after one byte.
    pub open spec fn step(self, byte: u8) -> (ParserView, ActionView) {
        match self.state {
            State::Ground => {
                if byte == 0x1b {
                    (self.goto(State::Escape), ActionView::Nop)
                } else if (0x20 <= byte <= 0x7e) || byte >= 0x80 {
                    (self, ActionView::Print(byte))
                } else if byte <= 0x1f {
                    (self, ActionView::Execute(byte))
                } else {
                    (self, ActionView::Nop)
                }
            },
            State::Escape => {
                if byte == 0x5b {
                    (self.csi_reset().goto(State::CsiEntry), ActionView::Nop)
                } else if byte == 0x5d {
                    (self.goto(State::OscString), ActionView::Nop)
                } else if byte == 0x50 {
                    (self.goto(State::DcsEntry), ActionView::Nop)
                } else if 0x20 <= byte <= 0x2f {
                    (
                        ParserView { intermediate: byte, state: State::EscapeIntermediate, ..self },
                        ActionView::Nop,
                    )
                } else if 0x30 <= byte <= 0x7e {
                    (
                        self.goto(State::Ground),
                        ActionView::EscDispatch { intermediate: 0, final_byte: byte },
                    )
                } else {
                    (self.goto(State::Ground), ActionView::Nop)
                }
            },
            State::EscapeIntermediate => {
                if 0x30 <= byte <= 0x7e {
                    (
                        self.goto(State::Ground),
                        ActionView::EscDispatch { intermediate: self.intermediate, final_byte: byte },
                    )
                } else if 0x20 <= byte <= 0x2f {
                    (ParserView { intermediate: byte, ..self }, ActionView::Nop)
                } else {
                    (self.goto(State::Ground), ActionView::Nop)
                }
            },
            State::CsiEntry => {
                if 0x30 <= byte <= 0x39 {
                    (
                        ParserView {
                            current_param: (byte - 0x30) as u16,
                            state: State::CsiParam,
                            ..self
                        },
                        ActionView::Nop,
                    )
                } else if byte == 0x3b {
                    (self.pushed(0).goto(State::CsiParam), ActionView::Nop)
                } else if byte == 0x3f || byte == 0x3e || byte == 0x3d {
                    (ParserView { intermediate: byte, ..self }, ActionView::Nop)
                } else if 0x40 <= byte <= 0x7e {
                    let p = self.pushed(self.current_param);
                    (p.goto(State::Ground), p.csi_dispatch(byte))
                } else {
                    (self.goto(State::Ground), ActionView::Nop)
                }
            },
            State::CsiParam => {
                if 0x30 <= byte <= 0x39 {
                    (
                        ParserView {
                            current_param: decimal_step(self.current_param, (byte - 0x30) as u16),
                            ..self
                        },
                        ActionView::Nop,
                    )
                } else if byte == 0x3b || byte == 0x3a {
                    (
                        ParserView { current_param: 0, ..self.pushed(self.current_param) },
                        ActionView::Nop,
                    )
                } else if 0x20 <= byte <= 0x2f {
                    (
                        ParserView {
                            current_param: 0,
                            intermediate: byte,
                            state: State::CsiIntermediate,
                            ..self.pushed(self.current_param)
                        },
                        ActionView::Nop,
                    )
                } else if 0x40 <= byte <= 0x7e {
                    let p = self.pushed(self.current_param);
                    (p.goto(State::Ground), p.csi_dispatch(byte))
                } else {
                    (self.goto(State::Ground), ActionView::Nop)
                }
            },
            State::CsiIntermediate => {
                if 0x20 <= byte <= 0x2f {
                    (ParserView { intermediate: byte, ..self }, ActionView::Nop)
                } else if 0x40 <= byte <= 0x7e {
                    (self.goto(State::Ground), self.csi_dispatch(byte))
                } else {
                    (self.goto(State::Ground), ActionView::Nop)
                }
            },
            State::OscString => {
                if byte == 0x07 {
                    (
                        ParserView { osc_buf: Seq::empty(), state: State::Ground, ..self },
                        ActionView::OscDispatch(self.osc_buf),
                    )
                } else if byte == 0x1b {
                    (
                        ParserView { osc_buf: Seq::empty(), state: State::Escape, ..self },
                        ActionView::OscDispatch(self.osc_buf),
                    )
                } else if self.osc_buf.len() < OSC_LIMIT {
                    (ParserView { osc_buf: self.osc_buf.push(byte), ..self }, ActionView::Nop)
                } else {
                    (self, ActionView::Nop)
                }
            },
            State::DcsEntry => {
                if byte == 0x1b {
                    (self.goto(State::Escape), ActionView::Nop)
                } else {
                    (self, ActionView::Nop)
                }
            },
        }
    }
}

pub struct Parser {
    state: State,
    params: [u16; MAX_PARAMS],
    param_count: usize,
    current_param: u16,
    intermediate: u8,
    osc_buf: Vec<u8>,
}

impl View for Parser {
    type V = ParserView;

    closed spec fn view(&self) -> ParserView {
        ParserView {
            state: self.state,
            params: self.params@.subrange(0, self.param_count as int),
            current_param: self.current_param,
            intermediate: self.intermediate,
            osc_buf: self.osc_buf@,
        }
    }
}

impl Parser {
    pub closed spec fn wf(&self) -> bool {
        &&& self.param_count <= MAX_PARAMS
        &&& self@.wf()
    }

    pub fn new() -> (p: Self)
        ensures
            p.wf(),
            p@ == ParserView::initial(),
    {
        let p = Parser {
            state: State::Ground,
            params: [0; MAX_PARAMS],
            param_count: 0,
            current_param: 0,
            intermediate: 0,
            osc_buf: Vec::new(),
        };
        assert(p@.params =~= Seq::<u16>::empty());
        p
    }

    pub fn params(&self) -> (ps: &[u16])
        requires
            self.wf(),
        ensures
            ps@ == self@.params,
    {
        let all: &[u16] = self.params.as_slice();
        &all[0..self.param_count]
    }

    pub fn param(&self, idx: usize, default: u16) -> (v: u16)
        requires
            self.wf(),
        ensures
            v == if idx < self@.params.len() && self@.params[idx as int] != 0 {
                self@.params[idx as int]
            } else {
                default
            },
    {
        if idx < self.param_count && self.params[idx] != 0 {
            self.params[idx]
        } else {
            default
        }
    }

    pub fn advance(&mut self, byte: u8) -> (a: Action)
        requires
            old(self).wf(),
        ensures
            final(self).wf(),
            (final(self)@, a@) == old(self)@.step(byte),
    {
        match self.state {
            State::Ground => self.ground(byte),
            State::Escape => self.escape(byte),
            State::EscapeIntermediate => self.escape_intermediate(byte),
            State::CsiEntry => self.csi_entry(byte),
            State::CsiParam => self.csi_param(byte),
            State::CsiIntermediate => self.csi_intermediate(byte),
            State::OscString => self.osc_string(byte),
            State::DcsEntry => self.dcs_entry(byte),
        }
    }

    fn ground(&mut self, byte: u8) -> (a: Action)
        requires
            old(self).wf(),
            old(self).state == State::Ground,
        ensures
            final(self).wf(),
            (final(self)@, a@) == old(self)@.step(byte),
    {
        if byte == 0x1b {
            self.state = State::Escape;
            Action::Nop
        } else if (0x20 <= byte && byte <= 0x7e) || byte >= 0x80 {
            Action::Print(byte)
        } else if byte <= 0x1f {
            Action::Execute(byte)
        } else {
            Action::Nop
        }
    }

    fn escape(&mut self, byte: u8) -> (a: Action)
        requires
            old(self).wf(),
            old(self).state == State::Escape,
        ensures
            final(self).wf(),
            (final(self)@, a@) == old(self)@.step(byte),
    {
        if byte == 0x5b {
            self.csi_reset();
            self.state = State::CsiEntry;
            Action::Nop
        } else if byte == 0x5d {
            self.state = State::OscString;
            Action::Nop
        } else if byte == 0x50 {
            self.state = State::DcsEntry;
            Action::Nop
        } else if 0x20 <= byte && byte <= 0x2f {
            self.intermediate = byte;
            self.state = State::EscapeIntermediate;
            Action::Nop
        } else if 0x30 <= byte && byte <= 0x7e {
            self.state = State::Ground;
            Action::EscDispatch { intermediate: 0, final_byte: byte }
        } else {
            self.state = State::Ground;
            Action::Nop
        }
    }

    fn escape_intermediate(&mut self, byte: u8) -> (a: Action)
        requires
            old(self).wf(),
            old(self).state == State::EscapeIntermediate,
        ensures
            final(self).wf(),
            (final(self)@, a@) == old(self)@.step(byte),
    {
        if 0x30 <= byte && byte <= 0x7e {
            let im = self.intermediate;
            self.state = State::Ground;
            Action::EscDispatch { intermediate: im, final_byte: byte }
        } else if 0x20 <= byte && byte <= 0x2f {
            self.intermediate = byte;
            Action::Nop
        } else {
            self.state = State::Ground;
            Action::Nop
        }
    }

    fn csi_entry(&mut self, byte: u8) -> (a: Action)
        requires
            old(self).wf(),
            old(self).state == State::CsiEntry,
        ensures
            final(self).wf(),
            (final(self)@, a@) == old(self)@.step(byte),
    {
        if 0x30 <= byte && byte <= 0x39 {
            self.current_param = (byte - 0x30) as u16;
            self.state = State::CsiParam;
            Action::Nop
        } else if byte == 0x3b {
            self.push_param(0);
            self.state = State::CsiParam;
            Action::Nop
        } else if byte == 0x3f || byte == 0x3e || byte == 0x3d {
            self.intermediate = byte;
            Action::Nop
        } else if 0x40 <= byte && byte <= 0x7e {
            let cp = self.current_param;
            self.push_param(cp);
            self.state = State::Ground;
            Action::CsiDispatch {
                params_count: self.param_count,
                intermediate: self.intermediate,
                final_byte: byte,
            }
        } else {
            self.state = State::Ground;
            Action::Nop
        }
    }

    fn csi_param(&mut self, byte: u8) -> (a: Action)
        requires
            old(self).wf(),
            old(self).state == State::CsiParam,
        ensures
            final(self).wf(),
            (final(self)@, a@) == old(self)@.step(byte),
    {
        if 0x30 <= byte && byte <= 0x39 {
            let v = (self.current_param as u32) * 10 + (byte - 0x30) as u32;
            self.current_param = if v > 0xffff {
                0xffff
            } else {
                v as u16
            };
            Action::Nop
        } else if byte == 0x3b || byte == 0x3a {
            let cp = self.current_param;
            self.push_param(cp);
            self.current_param = 0;
            Action::Nop
        } else if 0x20 <= byte && byte <= 0x2f {
            let cp = self.current_param;
            self.push_param(cp);
            self.current_param = 0;
            self.intermediate = byte;
            self.state = State::CsiIntermediate;
            Action::Nop
        } else if 0x40 <= byte && byte <= 0x7e {
            let cp = self.current_param;
            self.push_param(cp);
            self.state = State::Ground;
            Action::CsiDispatch {
                params_count: self.param_count,
                intermediate: self.intermediate,
                final_byte: byte,
            }
        } else {
            self.state = State::Ground;
            Action::Nop
        }
    }

    fn csi_intermediate(&mut self, byte: u8) -> (a: Action)
        requires
            old(self).wf(),
            old(self).state == State::CsiIntermediate,
        ensures
            final(self).wf(),
            (final(self)@, a@) == old(self)@.step(byte),
    {
        if 0x20 <= byte && byte <= 0x2f {
            self.intermediate = byte;
            Action::Nop
        } else if 0x40 <= byte && byte <= 0x7e {
            self.state = State::Ground;
            Action::CsiDispatch {
                params_count: self.param_count,
                intermediate: self.intermediate,
                final_byte: byte,
            }
        } else {
            self.state = State::Ground;
            Action::Nop
        }
    }

    fn osc_string(&mut self, byte: u8) -> (a: Action)
        requires
            old(self).wf(),
            old(self).state == State::OscString,
        ensures
            final(self).wf(),
            (final(self)@, a@) == old(self)@.step(byte),
    {
        if byte == 0x07 {
            self.state = State::Ground;
            let mut data = Vec::new();
            std::mem::swap(&mut self.osc_buf, &mut data);
            Action::OscDispatch(data)
        } else if byte == 0x1b {
            self.state = State::Escape;
            let mut data = Vec::new();
            std::mem::swap(&mut self.osc_buf, &mut data);
            Action::OscDispatch(data)
        } else {
            if self.osc_buf.len() < OSC_LIMIT {
                self.osc_buf.push(byte);
            }
            Action::Nop
        }
    }

    fn dcs_entry(&mut self, byte: u8) -> (a: Action)
        requires
            old(self).wf(),
            old(self).state == State::DcsEntry,
        ensures
            final(self).wf(),
            (final(self)@, a@) == old(self)@.step(byte),
    {
        if byte == 0x1b {
            self.state = State::Escape;
        }
        Action::Nop
    }

    /// Starts a new CSI sequence with all parameters cleared.
    fn csi_reset(&mut self)
        requires
            old(self).wf(),
        ensures
            final(self).wf(),
            final(self)@ == old(self)@.csi_reset(),
    {
        self.params = [0; MAX_PARAMS];
        self.param_count = 0;
        self.current_param = 0;
        self.intermediate = 0;
        assert(self@.params =~= Seq::<u16>::empty());
    }

    fn push_param(&mut self, value: u16)
        requires
            old(self).wf(),
        ensures
            final(self).wf(),
            final(self)@ == old(self)@.pushed(value),
            final(self).state == old(self).state,
            final(self).param_count == final(self)@.params.len(),
    {
        if self.param_count < MAX_PARAMS {
            self.params[self.param_count] = value;
            self.param_count = self.param_count + 1;
            assert(self@.params =~= old(self)@.params.push(value));
        }
    }
}


/// In a CSI sequence, a parameter followed by an intermediate byte is kept:
/// it joins the parameters (while fewer than sixteen are kept), the byte
/// becomes the intermediate, and the next byte starts a new parameter.
pub proof fn lemma_intermediate_keeps_parameter(m: ParserView, byte: u8)
    requires
        m.state == State::CsiParam,
        0x20 <= byte <= 0x2f,
    ensures
        ({
            let (m2, a) = m.step(byte);
            &&& a == ActionView::Nop
            &&& m2.state == State::CsiIntermediate
            &&& m2.intermediate == byte
            &&& m2.current_param == 0
            &&& m.params.len() < MAX_PARAMS ==> m2.params.len() == m.params.len() + 1
                && m2.params[m.params.len() as int] == m.current_param
                && m2.params.subrange(0, m.params.len() as int) == m.params
            &&& m.params.len() >= MAX_PARAMS ==> m2.params == m.params
        }),
{
    let m2 = m.step(byte).0;
    if m.params.len() < MAX_PARAMS {
        assert(m2.params.subrange(0, m.params.len() as int) =~= m.params);
    }
}

/// `ESC [ d i f`, a one-digit parameter `d`, an intermediate byte `i` and a
/// final byte `f` (such as `ESC [ 6 SP q`, a steady bar cursor), dispatches
/// `f` with `i` and the one parameter `d`, from the ground state.
pub proof fn lemma_csi_digit_intermediate_dispatch(m: ParserView, d: u8, i: u8, f: u8)
    requires
        m.state == State::Ground,
        d <= 9,
        0x20 <= i <= 0x2f,
        0x40 <= f <= 0x7e,
    ensures
        ({
            let before = m.step(0x1b).0.step(0x5b).0.step((0x30 + d) as u8).0.step(i).0;
            let (after, a) = before.step(f);
            &&& a == ActionView::CsiDispatch { params_count: 1, intermediate: i, final_byte: f }
            &&& after.params == seq![d as u16]
            &&& after.state == State::Ground
        }),
{
    let m2 = m.step(0x1b).0.step(0x5b).0;
    assert(m2.params.len() == 0);
    let m4 = m2.step((0x30 + d) as u8).0.step(i).0;
    assert(m4.params =~= seq![d as u16]);
}


/// `ESC [ a ; b f`, two one-digit parameters and a final byte (such as
/// `ESC [ 3 ; 5 H`, the cursor to row 3, column 5), dispatches `f` with no
/// intermediate and the parameters `a`, `b` in order.
pub proof fn lemma_csi_two_parameters_dispatch(m: ParserView, a: u8, b: u8, f: u8)
    requires
        m.state == State::Ground,
        a <= 9,
        b <= 9,
        0x40 <= f <= 0x7e,
    ensures
        ({
            let before = m.step(0x1b).0.step(0x5b).0.step((0x30 + a) as u8).0.step(0x3b).0.step(
                (0x30 + b) as u8,
            ).0;
            let (after, act) = before.step(f);
            &&& act == ActionView::CsiDispatch { params_count: 2, intermediate: 0, final_byte: f }
            &&& after.params == seq![a as u16, b as u16]
            &&& after.state == State::Ground
        }),
{
    let m2 = m.step(0x1b).0.step(0x5b).0;
    assert(m2.params.len() == 0);
    let m4 = m2.step((0x30 + a) as u8).0.step(0x3b).0;
    assert(m4.params =~= seq![a as u16]);
    let m5 = m4.step((0x30 + b) as u8).0;
    assert(m5.current_param == b as u16);
    assert(m5.step(f).0.params =~= seq![a as u16, b as u16]);
}

/// In the ground state, every byte from space up but DEL is printed and
/// leaves the parser as it is (DEL is ignored); ESC starts an escape
/// sequence; other control bytes are executed.
pub proof fn lemma_ground_bytes(m: ParserView, byte: u8)
    requires
        m.state == State::Ground,
    ensures
        byte >= 0x20 && byte != 0x7f ==> m.step(byte) == (m, ActionView::Print(byte)),
        byte == 0x7f ==> m.step(byte) == (m, ActionView::Nop),
        byte == 0x1b ==> m.step(byte).0.state == State::Escape && m.step(byte).1 == ActionView::Nop,
        byte < 0x20 && byte != 0x1b ==> m.step(byte) == (m, ActionView::Execute(byte)),
{
}

} // verus!
