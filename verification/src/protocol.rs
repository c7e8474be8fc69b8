//! WebSocket wire protocol: the messages carried, as JSON envelopes, in
//! both directions.
//!
//! ```text
//! ServerMsg = { type: 'data'; value: string } | { type: 'ack'; cols: number; rows: number }
//! ClientMsg = { type: 'input'; value: string } | { type: 'resize'; cols: number; rows: number }
//! ```
//!
//! The JSON framing itself is done where the socket is, with serde; this
//! module holds the messages and what the server does with them.

use vstd::prelude::*;

use crate::text::str_eq;

verus! {

/// Server to client.
#[derive(Debug, Clone)]
pub enum ServerMsg {
    /// Terminal output.
    Data { value: String },
    /// The PTY has been told about the given size.
    Ack { cols: u16, rows: u16 },
}

/// Client to server.
#[derive(Debug, Clone)]
pub enum ClientMsg {
    /// Keyboard (or mouse, paste, focus) input for the PTY.
    Input { value: String },
    /// The terminal size the client wants.
    Resize { cols: u16, rows: u16 },
}

/// What the server does for one message received from a client.
pub enum InboundAction {
    /// Write these bytes to the PTY.
    WriteInput { data: String },
    /// Resize the PTY, then acknowledge the size to the attached client, so
    /// that the client resizes its canvas only once the shell knows.
    Resize { cols: u16, rows: u16, ack: ServerMsg },
}

/// Decides what to do with a message received from the client.
pub fn handle_client_msg(msg: ClientMsg) -> (res: InboundAction)
    ensures
        match msg {
            ClientMsg::Input { value } => res == (InboundAction::WriteInput { data: value }),
            ClientMsg::Resize { cols, rows } => res == (InboundAction::Resize {
                cols,
                rows,
                ack: ServerMsg::Ack { cols, rows },
            }),
        },
{
    match msg {
        ClientMsg::Input { value } => InboundAction::WriteInput { data: value },
        ClientMsg::Resize { cols, rows } => InboundAction::Resize {
            cols,
            rows,
            ack: ServerMsg::Ack { cols, rows },
        },
    }
}

/// The requested terminal size, with each dimension raised to at least 1.
pub fn clamp_dims(cols: u16, rows: u16) -> (res: (u16, u16))
    ensures
        res.0 == (if cols < 1 { 1 } else { cols }),
        res.1 == (if rows < 1 { 1 } else { rows }),
{
    let c = if cols < 1 {
        1
    } else {
        cols
    };
    let r = if rows < 1 {
        1
    } else {
        rows
    };
    (c, r)
}

/// The messages a freshly attached client receives first: the replayed
/// scrollback (on reattach, when there is any), then the acknowledgement of
/// its size.
pub fn attach_greeting(scrollback: Option<String>, cols: u16, rows: u16) -> (res: Vec<ServerMsg>)
    ensures
        match scrollback {
            Some(sb) => res@ == seq![ServerMsg::Data { value: sb }, ServerMsg::Ack { cols, rows }],
            None => res@ == seq![ServerMsg::Ack { cols, rows }],
        },
{
    let mut out: Vec<ServerMsg> = Vec::new();
    match scrollback {
        Some(sb) => {
            out.push(ServerMsg::Data { value: sb });
        },
        None => {},
    }
    out.push(ServerMsg::Ack { cols, rows });
    out
}

/// The close code with which the server refuses a second connection to a
/// session that another connection holds.
pub const SESSION_BUSY_CODE: u16 = 4002;

/// The close frame sent to a connection refused because the session is
/// busy: its code and reason.
pub fn busy_close_reason() -> (res: (u16, String))
    ensures
        res.0 == SESSION_BUSY_CODE,
        res.1@ == "session-busy"@,
{
    (SESSION_BUSY_CODE, "session-busy".to_owned())
}

/// Whether the `take` query parameter asks to take the session over from
/// another tab: it must be exactly `1`.
pub fn take_requested(take: Option<&str>) -> (res: bool)
    ensures
        res == (take matches Some(t) && t@ == seq!['1']),
{
    match take {
        Some(t) => {
            let r = str_eq(t, "1");
            proof {
                reveal_strlit("1");
                assert("1"@ =~= seq!['1']);
            }
            r
        },
        None => false,
    }
}

} // verus!
