//! The VT escape-sequence parser: a byte-at-a-time state machine that turns
//! terminal output into print, control, CSI, ESC and control-string actions.
use vstd::prelude::*;

verus! {

/// The states of the parser.
#[derive(Debug, Clone, Copy, PartialEq, Eq, Structural)]
pub enum State {
    Ground,
    Escape,
    EscapeIntermediate,
    CsiEntry,
    CsiParam,
    CsiIntermediate,
    OscString,
    OscEscape,
    DcsString,
    DcsEscape,
    ApcString,
    ApcEscape,
}

/// At most this many CSI parameters are kept.
pub const MAX_PARAMS: usize = 16;

/// OSC payloads are cut at this many bytes.
pub const OSC_LIMIT: usize = 4096;

/// DCS and APC payloads are cut at this many bytes.
pub const STRING_LIMIT: usize = 1048576;

/// What the parser asks its consumer to do for one byte.
#[derive(Debug, Clone, PartialEq, Eq)]
pub enum Action {
    Print(u8),
    Execute(u8),
    CsiDispatch { params_count: u8, intermediate: u8, final_byte: u8 },
    EscDispatch { intermediate: u8, final_byte: u8 },
    OscDispatch(Box<Vec<u8>>),
    DcsDispatch(Box<Vec<u8>>),
    ApcDispatch(Box<Vec<u8>>),
    Nop,
}

/// An action with its payload seen as a byte sequence.
pub enum ActionView {
    Print(u8),
    Execute(u8),
    CsiDispatch { params_count: u8, intermediate: u8, final_byte: u8 },
    EscDispatch { intermediate: u8, final_byte: u8 },
    OscDispatch(Seq<u8>),
    DcsDispatch(Seq<u8>),
    ApcDispatch(Seq<u8>),
    Nop,
}

impl View for Action {
    type V = ActionView;

    open spec fn view(&self) -> ActionView {
        match self {
            Action::Print(b) => ActionView::Print(*b),
            Action::Execute(b) => ActionView::Execute(*b),
            Action::CsiDispatch { params_count, intermediate, final_byte } => ActionView::CsiDispatch {
                params_count: *params_count,
                intermediate: *intermediate,
                final_byte: *final_byte,
            },
            Action::EscDispatch { intermediate, final_byte } => ActionView::EscDispatch {
                intermediate: *intermediate,
                final_byte: *final_byte,
            },
            Action::OscDispatch(d) => ActionView::OscDispatch(d@),
            Action::DcsDispatch(d) => ActionView::DcsDispatch(d@),
            Action::ApcDispatch(d) => ActionView::ApcDispatch(d@),
            Action::Nop => ActionView::Nop,
        }
    }
}

/// The parser as its users see it: the state, the CSI parameters collected
/// so far, the parameter being read, the intermediate byte, and the OSC/APC
/// and DCS payloads being collected.
pub struct ParserView {
    pub state: State,
    pub params: Seq<u16>,
    pub current_param: u16,
    pub intermediate: u8,
    pub osc_buf: Seq<u8>,
    pub dcs_buf: Seq<u8>,
}

impl ParserView {
    /// A fresh parser.
    pub open spec fn initial() -> ParserView {
        ParserView {
            state: State::Ground,
            params: Seq::empty(),
            current_param: 0,
            intermediate: 0,
            osc_buf: Seq::empty(),
            dcs_buf: Seq::empty(),
        }
    }

    /// The parser's invariant: at most sixteen parameters, bounded payloads,
    /// and payload buffers that are empty outside the control strings that
    /// fill them.
    pub open spec fn wf(self) -> bool {
        &&& self.params.len() <= MAX_PARAMS
        &&& self.osc_buf.len() <= STRING_LIMIT
        &&& self.dcs_buf.len() <= STRING_LIMIT
        &&& !in_osc_or_apc(self.state) ==> self.osc_buf.len() == 0
        &&& !in_dcs(self.state) ==> self.dcs_buf.len() == 0
    }

    /// The state after feeding `bytes`, one at a time.
    pub open spec fn feed(self, bytes: Seq<u8>) -> ParserView
        decreases bytes.len(),
    {
        if bytes.len() == 0 {
            self
        } else {
            self.step(bytes[0]).0.feed(bytes.drop_first())
        }
    }

    pub open spec fn goto(self, state: State) -> ParserView {
        ParserView { state, ..self }
    }

    /// `value` appended to the parameters, unless sixteen are kept already.
    pub open spec fn pushed(self, value: u16) -> ParserView {
        if self.params.len() < MAX_PARAMS {
            ParserView { params: self.params.push(value), ..self }
        } else {
            self
        }
    }

    /// A new CSI sequence: no parameters, no intermediate byte.
    pub open spec fn csi_reset(self) -> ParserView {
        ParserView { params: Seq::empty(), current_param: 0, intermediate: 0, ..self }
    }

    pub open spec fn csi_dispatch(self, final_byte: u8) -> ActionView {
        ActionView::CsiDispatch {
            params_count: self.params.len() as u8,
            intermediate: self.intermediate,
            final_byte,
        }
    }

    /// The state and action after one byte.
    pub open spec fn step(self, byte: u8) -> (ParserView, ActionView) {
        match self.state {
            State::Ground => {
                if byte >= 0x20 {
                    (self, ActionView::Print(byte))
                } else if byte == 0x1b {
                    (self.goto(State::Escape), ActionView::Nop)
                } else {
                    (self, ActionView::Execute(byte))
                }
            },
            State::Escape => {
                if byte == 0x5b {
                    (self.csi_reset().goto(State::CsiEntry), ActionView::Nop)
                } else if byte == 0x5d {
                    (self.goto(State::OscString), ActionView::Nop)
                } else if byte == 0x50 {
                    (
                        ParserView { dcs_buf: Seq::empty(), state: State::DcsString, ..self },
                        ActionView::Nop,
                    )
                } else if byte == 0x5f {
                    (
                        ParserView { osc_buf: Seq::empty(), state: State::ApcString, ..self },
                        ActionView::Nop,
                    )
                } else if 0x20 <= byte <= 0x2f {
                    (
                        ParserView { intermediate: byte, state: State::EscapeIntermediate, ..self },
                        ActionView::Nop,
                    )
                } else if 0x30 <= byte <= 0x7e {
                    (
                        self.goto(State::Ground),
                        ActionView::EscDispatch { intermediate: 0, final_byte: byte },
                    )
                } else {
                    (self.goto(State::Ground), ActionView::Nop)
                }
            },
            State::EscapeIntermediate => {
                if 0x30 <= byte <= 0x7e {
                    (
                        self.goto(State::Ground),
                        ActionView::EscDispatch { intermediate: self.intermediate, final_byte: byte },
                    )
                } else if 0x20 <= byte <= 0x2f {
                    (ParserView { intermediate: byte, ..self }, ActionView::Nop)
                } else {
                    (self.goto(State::Ground), ActionView::Nop)
                }
            },
            State::CsiEntry => {
                if 0x30 <= byte <= 0x39 {
                    (
                        ParserView {
                            current_param: (byte - 0x30) as u16,
                            state: State::CsiParam,
                            ..self
                        },
                        ActionView::Nop,
                    )
                } else if byte == 0x3b {
                    (self.pushed(0).goto(State::CsiParam), ActionView::Nop)
                } else if byte == 0x3f || byte == 0x3e || byte == 0x3d || byte == 0x3c {
                    (ParserView { intermediate: byte, ..self }, ActionView::Nop)
                } else if 0x40 <= byte <= 0x7e {
                    let p = self.pushed(self.current_param);
                    (p.goto(State::Ground), p.csi_dispatch(byte))
                } else {
                    (self.goto(State::Ground), ActionView::Nop)
                }
            },
            State::CsiParam => {
                if 0x30 <= byte <= 0x39 {
                    (
                        ParserView {
                            current_param: decimal_step(self.current_param, (byte - 0x30) as u16),
                            ..self
                        },
                        ActionView::Nop,
                    )
                } else if byte == 0x3b || byte == 0x3a {
                    (
                        ParserView { current_param: 0, ..self.pushed(self.current_param) },
                        ActionView::Nop,
                    )
                } else if 0x20 <= byte <= 0x2f {
                    (
                        ParserView {
                            current_param: 0,
                            intermediate: byte,
                            state: State::CsiIntermediate,
                            ..self.pushed(self.current_param)
                        },
                        ActionView::Nop,
                    )
                } else if 0x40 <= byte <= 0x7e {
                    let p = self.pushed(self.current_param);
                    (p.goto(State::Ground), p.csi_dispatch(byte))
                } else {
                    (self.goto(State::Ground), ActionView::Nop)
                }
            },
            State::CsiIntermediate => {
                if 0x20 <= byte <= 0x2f {
                    (ParserView { intermediate: byte, ..self }, ActionView::Nop)
                } else if 0x40 <= byte <= 0x7e {
                    (self.goto(State::Ground), self.csi_dispatch(byte))
                } else {
                    (self.goto(State::Ground), ActionView::Nop)
                }
            },
            State::OscString => {
                if byte == 0x07 {
                    (
                        ParserView { osc_buf: Seq::empty(), state: State::Ground, ..self },
                        ActionView::OscDispatch(self.osc_buf),
                    )
                } else if byte == 0x1b {
                    (self.goto(State::OscEscape), ActionView::Nop)
                } else {
                    (
                        ParserView { osc_buf: append_capped(self.osc_buf, seq![byte], OSC_LIMIT as nat), ..self },
                        ActionView::Nop,
                    )
                }
            },
            State::OscEscape => {
                if byte == 0x5c {
                    (
                        ParserView { osc_buf: Seq::empty(), state: State::Ground, ..self },
                        ActionView::OscDispatch(self.osc_buf),
                    )
                } else {
                    (
                        ParserView {
                            osc_buf: append_capped(self.osc_buf, seq![0x1b, byte], OSC_LIMIT as nat),
                            state: State::OscString,
                            ..self
                        },
                        ActionView::Nop,
                    )
                }
            },
            State::DcsString => {
                if byte == 0x1b {
                    (self.goto(State::DcsEscape), ActionView::Nop)
                } else if byte == 0x07 {
                    (
                        ParserView { dcs_buf: Seq::empty(), state: State::Ground, ..self },
                        ActionView::DcsDispatch(self.dcs_buf),
                    )
                } else {
                    (
                        ParserView { dcs_buf: append_capped(self.dcs_buf, seq![byte], STRING_LIMIT as nat), ..self },
                        ActionView::Nop,
                    )
                }
            },
            State::DcsEscape => {
                if byte == 0x5c {
                    (
                        ParserView { dcs_buf: Seq::empty(), state: State::Ground, ..self },
                        ActionView::DcsDispatch(self.dcs_buf),
                    )
                } else {
                    (
                        ParserView {
                            dcs_buf: append_capped(self.dcs_buf, seq![0x1b, byte], STRING_LIMIT as nat),
                            state: State::DcsString,
                            ..self
                        },
                        ActionView::Nop,
                    )
                }
            },
            State::ApcString => {
                if byte == 0x1b {
                    (self.goto(State::ApcEscape), ActionView::Nop)
                } else if byte == 0x07 {
                    (
                        ParserView { osc_buf: Seq::empty(), state: State::Ground, ..self },
                        ActionView::ApcDispatch(self.osc_buf),
                    )
                } else {
                    (
                        ParserView { osc_buf: append_capped(self.osc_buf, seq![byte], STRING_LIMIT as nat), ..self },
                        ActionView::Nop,
                    )
                }
            },
            State::ApcEscape => {
                if byte == 0x5c {
                    (
                        ParserView { osc_buf: Seq::empty(), state: State::Ground, ..self },
                        ActionView::ApcDispatch(self.osc_buf),
                    )
                } else {
                    (
                        ParserView {
                            osc_buf: append_capped(self.osc_buf, seq![0x1b, byte], STRING_LIMIT as nat),
                            state: State::ApcString,
                            ..self
                        },
                        ActionView::Nop,
                    )
                }
            },
        }
    }
}

/// States that collect an OSC or APC payload.
pub open spec fn in_osc_or_apc(s: State) -> bool {
    s == State::OscString || s == State::OscEscape || s == State::ApcString || s == State::ApcEscape
}

/// States that collect a DCS payload.
pub open spec fn in_dcs(s: State) -> bool {
    s == State::DcsString || s == State::DcsEscape
}

/// `10 * value + digit`, saturating at `u16::MAX`.
pub open spec fn decimal_step(value: u16, digit: u16) -> u16 {
    if value * 10 + digit > u16::MAX {
        u16::MAX
    } else {
        (value * 10 + digit) as u16
    }
}

/// `buf` with `extra` appended when the result stays within `limit` bytes.
pub open spec fn append_capped(buf: Seq<u8>, extra: Seq<u8>, limit: nat) -> Seq<u8> {
    if buf.len() + extra.len() <= limit {
        buf + extra
    } else {
        buf
    }
}

/// The escape-sequence parser.
pub struct Parser {
    state: State,
    params: [u16; MAX_PARAMS],
    param_count: usize,
    current_param: u16,
    intermediate: u8,
    osc_buf: Vec<u8>,
    dcs_buf: Vec<u8>,
}

impl View for Parser {
    type V = ParserView;

    closed spec fn view(&self) -> ParserView {
        ParserView {
            state: self.state,
            params: self.params@.subrange(0, self.param_count as int),
            current_param: self.current_param,
            intermediate: self.intermediate,
            osc_buf: self.osc_buf@,
            dcs_buf: self.dcs_buf@,
        }
    }
}

impl Parser {
    pub closed spec fn wf(&self) -> bool {
        &&& self.param_count <= MAX_PARAMS
        &&& self@.wf()
    }

    pub fn new() -> (p: Self)
        ensures
            p.wf(),
            p@ == ParserView::initial(),
    {
        let p = Parser {
            state: State::Ground,
            params: [0; MAX_PARAMS],
            param_count: 0,
            current_param: 0,
            intermediate: 0,
            osc_buf: Vec::new(),
            dcs_buf: Vec::new(),
        };
        assert(p@.params =~= Seq::<u16>::empty());
        p
    }

    /// The CSI parameters of the current or last sequence.
    pub fn params(&self) -> (ps: &[u16])
        requires
            self.wf(),
        ensures
            ps@ == self@.params,
    {
        let all: &[u16] = self.params.as_slice();
        &all[0..self.param_count]
    }

    /// Parameter `idx`, or `default` when it is missing or zero.
    pub fn param(&self, idx: usize, default: u16) -> (v: u16)
        requires
            self.wf(),
        ensures
            v == if idx < self@.params.len() && self@.params[idx as int] != 0 {
                self@.params[idx as int]
            } else {
                default
            },
    {
        if idx < self.param_count && self.params[idx] != 0 {
            self.params[idx]
        } else {
            default
        }
    }

    pub fn is_ground(&self) -> (g: bool)
        ensures
            g == (self@.state == State::Ground),
    {
        match self.state {
            State::Ground => true,
            _ => false,
        }
    }

    /// Feeds one byte.
    pub fn advance(&mut self, byte: u8) -> (a: Action)
        requires
            old(self).wf(),
        ensures
            final(self).wf(),
            (final(self)@, a@) == old(self)@.step(byte),
    {
        match self.state {
            State::Ground => {
                if byte >= 0x20 {
                    return Action::Print(byte);
                }
                if byte == 0x1b {
                    self.state = State::Escape;
                    return Action::Nop;
                }
                Action::Execute(byte)
            },
            _ => self.advance_slow(byte),
        }
    }

    fn advance_slow(&mut self, byte: u8) -> (a: Action)
        requires
            old(self).wf(),
            old(self).state != State::Ground,
        ensures
            final(self).wf(),
            (final(self)@, a@) == old(self)@.step(byte),
    {
        match self.state {
            State::Ground => Action::Nop,
            State::Escape => self.escape(byte),
            State::EscapeIntermediate => self.escape_intermediate(byte),
            State::CsiEntry => self.csi_entry(byte),
            State::CsiParam => self.csi_param(byte),
            State::CsiIntermediate => self.csi_intermediate(byte),
            State::OscString => self.osc_string(byte),
            State::OscEscape => self.osc_escape(byte),
            State::DcsString => self.dcs_string(byte),
            State::DcsEscape => self.dcs_escape(byte),
            State::ApcString => self.apc_string(byte),
            State::ApcEscape => self.apc_escape(byte),
        }
    }

    fn escape(&mut self, byte: u8) -> (a: Action)
        requires
            old(self).wf(),
            old(self).state == State::Escape,
        ensures
            final(self).wf(),
            (final(self)@, a@) == old(self)@.step(byte),
    {
        if byte == 0x5b {
            self.csi_reset();
            self.state = State::CsiEntry;
            Action::Nop
        } else if byte == 0x5d {
            self.state = State::OscString;
            Action::Nop
        } else if byte == 0x50 {
            self.dcs_buf.clear();
            self.state = State::DcsString;
            Action::Nop
        } else if byte == 0x5f {
            self.osc_buf.clear();
            self.state = State::ApcString;
            Action::Nop
        } else if 0x20 <= byte && byte <= 0x2f {
            self.intermediate = byte;
            self.state = State::EscapeIntermediate;
            Action::Nop
        } else if 0x30 <= byte && byte <= 0x7e {
            self.state = State::Ground;
            Action::EscDispatch { intermediate: 0, final_byte: byte }
        } else {
            self.state = State::Ground;
            Action::Nop
        }
    }

    fn escape_intermediate(&mut self, byte: u8) -> (a: Action)
        requires
            old(self).wf(),
            old(self).state == State::EscapeIntermediate,
        ensures
            final(self).wf(),
            (final(self)@, a@) == old(self)@.step(byte),
    {
        if 0x30 <= byte && byte <= 0x7e {
            let im = self.intermediate;
            self.state = State::Ground;
            Action::EscDispatch { intermediate: im, final_byte: byte }
        } else if 0x20 <= byte && byte <= 0x2f {
            self.intermediate = byte;
            Action::Nop
        } else {
            self.state = State::Ground;
            Action::Nop
        }
    }

    fn csi_entry(&mut self, byte: u8) -> (a: Action)
        requires
            old(self).wf(),
            old(self).state == State::CsiEntry,
        ensures
            final(self).wf(),
            (final(self)@, a@) == old(self)@.step(byte),
    {
        if 0x30 <= byte && byte <= 0x39 {
            self.current_param = (byte - 0x30) as u16;
            self.state = State::CsiParam;
            Action::Nop
        } else if byte == 0x3b {
            self.push_param(0);
            self.state = State::CsiParam;
            Action::Nop
        } else if byte == 0x3f || byte == 0x3e || byte == 0x3d || byte == 0x3c {
            self.intermediate = byte;
            Action::Nop
        } else if 0x40 <= byte && byte <= 0x7e {
            let cp = self.current_param;
            self.push_param(cp);
            self.state = State::Ground;
            Action::CsiDispatch {
                params_count: self.param_count as u8,
                intermediate: self.intermediate,
                final_byte: byte,
            }
        } else {
            self.state = State::Ground;
            Action::Nop
        }
    }

    fn csi_param(&mut self, byte: u8) -> (a: Action)
        requires
            old(self).wf(),
            old(self).state == State::CsiParam,
        ensures
            final(self).wf(),
            (final(self)@, a@) == old(self)@.step(byte),
    {
        if 0x30 <= byte && byte <= 0x39 {
            let v = (self.current_param as u32) * 10 + (byte - 0x30) as u32;
            self.current_param = if v > 0xffff {
                0xffff
            } else {
                v as u16
            };
            Action::Nop
        } else if byte == 0x3b || byte == 0x3a {
            let cp = self.current_param;
            self.push_param(cp);
            self.current_param = 0;
            Action::Nop
        } else if 0x20 <= byte && byte <= 0x2f {
            let cp = self.current_param;
            self.push_param(cp);
            self.current_param = 0;
            self.intermediate = byte;
            self.state = State::CsiIntermediate;
            Action::Nop
        } else if 0x40 <= byte && byte <= 0x7e {
            let cp = self.current_param;
            self.push_param(cp);
            self.state = State::Ground;
            Action::CsiDispatch {
                params_count: self.param_count as u8,
                intermediate: self.intermediate,
                final_byte: byte,
            }
        } else {
            self.state = State::Ground;
            Action::Nop
        }
    }

    fn csi_intermediate(&mut self, byte: u8) -> (a: Action)
        requires
            old(self).wf(),
            old(self).state == State::CsiIntermediate,
        ensures
            final(self).wf(),
            (final(self)@, a@) == old(self)@.step(byte),
    {
        if 0x20 <= byte && byte <= 0x2f {
            self.intermediate = byte;
            Action::Nop
        } else if 0x40 <= byte && byte <= 0x7e {
            self.state = State::Ground;
            Action::CsiDispatch {
                params_count: self.param_count as u8,
                intermediate: self.intermediate,
                final_byte: byte,
            }
        } else {
            self.state = State::Ground;
            Action::Nop
        }
    }

    fn osc_string(&mut self, byte: u8) -> (a: Action)
        requires
            old(self).wf(),
            old(self).state == State::OscString,
        ensures
            final(self).wf(),
            (final(self)@, a@) == old(self)@.step(byte),
    {
        if byte == 0x07 {
            self.state = State::Ground;
            let data = take_bytes(&mut self.osc_buf);
            Action::OscDispatch(Box::new(data))
        } else if byte == 0x1b {
            self.state = State::OscEscape;
            Action::Nop
        } else {
            if self.osc_buf.len() < OSC_LIMIT {
                self.osc_buf.push(byte);
            }
            proof {
                assert(old(self)@.osc_buf.len() + 1 <= OSC_LIMIT ==> self.osc_buf@ =~= old(
                    self,
                )@.osc_buf + seq![byte]);
            }
            Action::Nop
        }
    }

    fn osc_escape(&mut self, byte: u8) -> (a: Action)
        requires
            old(self).wf(),
            old(self).state == State::OscEscape,
        ensures
            final(self).wf(),
            (final(self)@, a@) == old(self)@.step(byte),
    {
        if byte == 0x5c {
            self.state = State::Ground;
            let data = take_bytes(&mut self.osc_buf);
            Action::OscDispatch(Box::new(data))
        } else {
            self.state = State::OscString;
            if self.osc_buf.len() + 2 <= OSC_LIMIT {
                self.osc_buf.push(0x1b);
                self.osc_buf.push(byte);
            }
            proof {
                assert(old(self)@.osc_buf.len() + 2 <= OSC_LIMIT ==> self.osc_buf@ =~= old(
                    self,
                )@.osc_buf + seq![0x1bu8, byte]);
            }
            Action::Nop
        }
    }

    fn dcs_string(&mut self, byte: u8) -> (a: Action)
        requires
            old(self).wf(),
            old(self).state == State::DcsString,
        ensures
            final(self).wf(),
            (final(self)@, a@) == old(self)@.step(byte),
    {
        if byte == 0x1b {
            self.state = State::DcsEscape;
            Action::Nop
        } else if byte == 0x07 {
            self.state = State::Ground;
            let data = take_bytes(&mut self.dcs_buf);
            Action::DcsDispatch(Box::new(data))
        } else {
            if self.dcs_buf.len() < STRING_LIMIT {
                self.dcs_buf.push(byte);
            }
            proof {
                assert(old(self)@.dcs_buf.len() + 1 <= STRING_LIMIT ==> self.dcs_buf@ =~= old(
                    self,
                )@.dcs_buf + seq![byte]);
            }
            Action::Nop
        }
    }

    fn dcs_escape(&mut self, byte: u8) -> (a: Action)
        requires
            old(self).wf(),
            old(self).state == State::DcsEscape,
        ensures
            final(self).wf(),
            (final(self)@, a@) == old(self)@.step(byte),
    {
        if byte == 0x5c {
            self.state = State::Ground;
            let data = take_bytes(&mut self.dcs_buf);
            Action::DcsDispatch(Box::new(data))
        } else {
            self.state = State::DcsString;
            if self.dcs_buf.len() + 2 <= STRING_LIMIT {
                self.dcs_buf.push(0x1b);
                self.dcs_buf.push(byte);
            }
            proof {
                assert(old(self)@.dcs_buf.len() + 2 <= STRING_LIMIT ==> self.dcs_buf@ =~= old(
                    self,
                )@.dcs_buf + seq![0x1bu8, byte]);
            }
            Action::Nop
        }
    }

    fn apc_string(&mut self, byte: u8) -> (a: Action)
        requires
            old(self).wf(),
            old(self).state == State::ApcString,
        ensures
            final(self).wf(),
            (final(self)@, a@) == old(self)@.step(byte),
    {
        if byte == 0x1b {
            self.state = State::ApcEscape;
            Action::Nop
        } else if byte == 0x07 {
            self.state = State::Ground;
            let data = take_bytes(&mut self.osc_buf);
            Action::ApcDispatch(Box::new(data))
        } else {
            if self.osc_buf.len() < STRING_LIMIT {
                self.osc_buf.push(byte);
            }
            proof {
                assert(old(self)@.osc_buf.len() + 1 <= STRING_LIMIT ==> self.osc_buf@ =~= old(
                    self,
                )@.osc_buf + seq![byte]);
            }
            Action::Nop
        }
    }

    fn apc_escape(&mut self, byte: u8) -> (a: Action)
        requires
            old(self).wf(),
            old(self).state == State::ApcEscape,
        ensures
            final(self).wf(),
            (final(self)@, a@) == old(self)@.step(byte),
    {
        if byte == 0x5c {
            self.state = State::Ground;
            let data = take_bytes(&mut self.osc_buf);
            Action::ApcDispatch(Box::new(data))
        } else {
            self.state = State::ApcString;
            if self.osc_buf.len() + 2 <= STRING_LIMIT {
                self.osc_buf.push(0x1b);
                self.osc_buf.push(byte);
            }
            proof {
                assert(old(self)@.osc_buf.len() + 2 <= STRING_LIMIT ==> self.osc_buf@ =~= old(
                    self,
                )@.osc_buf + seq![0x1bu8, byte]);
            }
            Action::Nop
        }
    }

    /// Starts a new CSI sequence. The parameter array is not cleared: every
    /// reader is bounded by the parameter count.
    fn csi_reset(&mut self)
        requires
            old(self).wf(),
        ensures
            final(self).wf(),
            final(self)@ == old(self)@.csi_reset(),
    {
        self.param_count = 0;
        self.current_param = 0;
        self.intermediate = 0;
        assert(self@.params =~= Seq::<u16>::empty());
    }

    fn push_param(&mut self, value: u16)
        requires
            old(self).wf(),
        ensures
            final(self).wf(),
            final(self)@ == old(self)@.pushed(value),
            final(self).state == old(self).state,
            final(self).param_count == final(self)@.params.len(),
    {
        if self.param_count < MAX_PARAMS {
            self.params[self.param_count] = value;
            self.param_count = self.param_count + 1;
            assert(self@.params =~= old(self)@.params.push(value));
        }
    }
}

/// Moves the bytes out of `buf`, leaving it empty.
fn take_bytes(buf: &mut Vec<u8>) -> (data: Vec<u8>)
    ensures
        data@ == old(buf)@,
        final(buf)@ == Seq::<u8>::empty(),
{
    let mut empty = Vec::new();
    std::mem::swap(buf, &mut empty);
    empty
}

impl Default for Parser {
    fn default() -> (p: Self)
        ensures
            p.wf(),
            p@ == ParserView::initial(),
    {
        Parser::new()
    }
}

/// Feeding bytes other than BEL and ESC inside an OSC string appends them to
/// the payload while it fits.
proof fn lemma_osc_collects(m: ParserView, p: Seq<u8>)
    requires
        m.wf(),
        m.state == State::OscString,
        m.osc_buf.len() + p.len() <= OSC_LIMIT,
        forall|i: int| 0 <= i < p.len() ==> p[i] != 0x07 && p[i] != 0x1b,
    ensures
        m.feed(p).wf(),
        m.feed(p).state == State::OscString,
        m.feed(p).osc_buf == m.osc_buf + p,
    decreases p.len(),
{
    if p.len() == 0 {
        assert(m.osc_buf + p =~= m.osc_buf);
    } else {
        let m1 = m.step(p[0]).0;
        assert(m1.osc_buf =~= m.osc_buf + seq![p[0]]);
        lemma_osc_collects(m1, p.drop_first());
        assert(m.osc_buf + seq![p[0]] + p.drop_first() =~= m.osc_buf + p);
    }
}

/// An OSC string written as `ESC ] payload BEL` after printable text reaches
/// its consumer unchanged, and the parser is back in the ground state. The
/// payload must not hold BEL or ESC and must fit the OSC limit.
pub proof fn lemma_osc_payload_roundtrip(m: ParserView, p: Seq<u8>)
    requires
        m.wf(),
        m.state == State::Ground,
        p.len() <= OSC_LIMIT,
        forall|i: int| 0 <= i < p.len() ==> p[i] != 0x07 && p[i] != 0x1b,
    ensures
        ({
            let m2 = m.step(0x1b).0.step(0x5d).0;
            let (m3, a) = m2.feed(p).step(0x07);
            &&& a == ActionView::OscDispatch(p)
            &&& m3.state == State::Ground
            &&& m3.wf()
        }),
{
    let m2 = m.step(0x1b).0.step(0x5d).0;
    assert(m2.osc_buf.len() == 0);
    lemma_osc_collects(m2, p);
    assert(m2.osc_buf + p =~= p);
}

/// Whatever bytes a parser is fed, it keeps its invariant: never more than
/// sixteen CSI parameters, payloads within their limits.
pub proof fn lemma_feed_keeps_wf(m: ParserView, bytes: Seq<u8>)
    requires
        m.wf(),
    ensures
        m.feed(bytes).wf(),
    decreases bytes.len(),
{
    if bytes.len() > 0 {
        lemma_step_keeps_wf(m, bytes[0]);
        lemma_feed_keeps_wf(m.step(bytes[0]).0, bytes.drop_first());
    }
}

/// One step keeps the parser's invariant.
pub proof fn lemma_step_keeps_wf(m: ParserView, byte: u8)
    requires
        m.wf(),
    ensures
        m.step(byte).0.wf(),
{
}


/// In a CSI sequence, a parameter followed by an intermediate byte is kept:
/// it joins the parameters (while fewer than sixteen are kept), the byte
/// becomes the intermediate, and the next byte starts a new parameter.
pub proof fn lemma_intermediate_keeps_parameter(m: ParserView, byte: u8)
    requires
        m.state == State::CsiParam,
        0x20 <= byte <= 0x2f,
    ensures
        ({
            let (m2, a) = m.step(byte);
            &&& a == ActionView::Nop
            &&& m2.state == State::CsiIntermediate
            &&& m2.intermediate == byte
            &&& m2.current_param == 0
            &&& m.params.len() < MAX_PARAMS ==> m2.params.len() == m.params.len() + 1
                && m2.params[m.params.len() as int] == m.current_param
                && m2.params.subrange(0, m.params.len() as int) == m.params
            &&& m.params.len() >= MAX_PARAMS ==> m2.params == m.params
        }),
{
    let m2 = m.step(byte).0;
    if m.params.len() < MAX_PARAMS {
        assert(m2.params.subrange(0, m.params.len() as int) =~= m.params);
    }
}

/// `ESC [ d i f`, a one-digit parameter `d`, an intermediate byte `i` and a
/// final byte `f` (such as `ESC [ 6 SP q`, a steady bar cursor), dispatches
/// `f` with `i` and the one parameter `d`, from the ground state.
pub proof fn lemma_csi_digit_intermediate_dispatch(m: ParserView, d: u8, i: u8, f: u8)
    requires
        m.state == State::Ground,
        d <= 9,
        0x20 <= i <= 0x2f,
        0x40 <= f <= 0x7e,
    ensures
        ({
            let before = m.feed(seq![0x1bu8, 0x5bu8, (0x30 + d) as u8, i]);
            let (after, a) = before.step(f);
            &&& a == ActionView::CsiDispatch { params_count: 1, intermediate: i, final_byte: f }
            &&& after.params == seq![d as u16]
            &&& after.state == State::Ground
        }),
{
    let bytes = seq![0x1bu8, 0x5bu8, (0x30 + d) as u8, i];
    let m1 = m.step(0x1b).0;
    let m2 = m1.step(0x5b).0;
    let m3 = m2.step((0x30 + d) as u8).0;
    let m4 = m3.step(i).0;
    assert(m2.params.len() == 0);
    assert(m3.current_param == d as u16);
    assert(m4.params =~= seq![d as u16]);
    assert(bytes.drop_first() =~= seq![0x5bu8, (0x30 + d) as u8, i]);
    assert(bytes.drop_first().drop_first() =~= seq![(0x30 + d) as u8, i]);
    assert(bytes.drop_first().drop_first().drop_first() =~= seq![i]);
    assert(bytes.drop_first().drop_first().drop_first().drop_first() =~= Seq::<u8>::empty());
    reveal_with_fuel(ParserView::feed, 5);
    assert(m.feed(bytes) == m4);
}


/// `ESC [ a ; b f`, two one-digit parameters and a final byte (such as
/// `ESC [ 3 ; 5 H`, the cursor to row 3, column 5), dispatches `f` with no
/// intermediate and the parameters `a`, `b` in order.
pub proof fn lemma_csi_two_parameters_dispatch(m: ParserView, a: u8, b: u8, f: u8)
    requires
        m.state == State::Ground,
        a <= 9,
        b <= 9,
        0x40 <= f <= 0x7e,
    ensures
        ({
            let before = m.step(0x1b).0.step(0x5b).0.step((0x30 + a) as u8).0.step(0x3b).0.step(
                (0x30 + b) as u8,
            ).0;
            let (after, act) = before.step(f);
            &&& act == ActionView::CsiDispatch { params_count: 2, intermediate: 0, final_byte: f }
            &&& after.params == seq![a as u16, b as u16]
            &&& after.state == State::Ground
        }),
{
    let m2 = m.step(0x1b).0.step(0x5b).0;
    assert(m2.params.len() == 0);
    let m4 = m2.step((0x30 + a) as u8).0.step(0x3b).0;
    assert(m4.params =~= seq![a as u16]);
    let m5 = m4.step((0x30 + b) as u8).0;
    assert(m5.current_param == b as u16);
    assert(m5.step(f).0.params =~= seq![a as u16, b as u16]);
}

/// In the ground state, every byte from space up is printed and leaves the
/// parser as it is; ESC starts an escape sequence; other control bytes are
/// executed.
pub proof fn lemma_ground_bytes(m: ParserView, byte: u8)
    requires
        m.state == State::Ground,
    ensures
        byte >= 0x20 ==> m.step(byte) == (m, ActionView::Print(byte)),
        byte == 0x1b ==> m.step(byte).0.state == State::Escape && m.step(byte).1 == ActionView::Nop,
        byte < 0x20 && byte != 0x1b ==> m.step(byte) == (m, ActionView::Execute(byte)),
{
}

} // verus!
