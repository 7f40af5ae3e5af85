//! Arguments for the ydotool text-injection service.
use vstd::prelude::*;

verus! {

/// Where the ydotool daemon listens.
pub const YDOTOOL_SOCKET: &'static str = "/tmp/.ydotool_socket";

/// ydotool key event: backspace (code 14) down.
pub const BACKSPACE_DOWN: &'static str = "14:1";

/// ydotool key event: backspace (code 14) up.
pub const BACKSPACE_UP: &'static str = "14:0";

/// The views of a sequence of strings.
pub open spec fn views(v: Seq<String>) -> Seq<Seq<char>> {
    v.map_values(|s: String| s@)
}

/// `key` followed by a down and an up event for each of `count` backspaces.
pub open spec fn backspace_seq(count: nat) -> Seq<Seq<char>>
    decreases count,
{
    if count == 0 {
        seq!["key"@]
    } else {
        backspace_seq((count - 1) as nat) + seq![BACKSPACE_DOWN@, BACKSPACE_UP@]
    }
}

/// Builds the commands that replay keystrokes and text through ydotool.
#[derive(Debug)]
pub struct TextInjector {
    socket_path: String,
}

impl TextInjector {
    /// The daemon socket this injector talks to.
    pub closed spec fn socket(&self) -> Seq<char> {
        self.socket_path@
    }

    /// An injector for the default daemon socket.
    pub fn new() -> (r: Self)
        ensures
            r.socket() == YDOTOOL_SOCKET@,
    {
        TextInjector { socket_path: String::from_str(YDOTOOL_SOCKET) }
    }

    /// The daemon socket path.
    pub fn socket_path(&self) -> (r: &str)
        ensures
            r@ == self.socket(),
    {
        self.socket_path.as_str()
    }

    /// ydotool arguments that type `count` backspaces; none when `count` is 0.
    pub fn backspace_args(&self, count: usize) -> (r: Option<Vec<String>>)
        ensures
            match r {
                Some(v) => count > 0 && views(v@) == backspace_seq(count as nat),
                None => count == 0,
            },
    {
        if count == 0 {
            return None;
        }
        let mut args: Vec<String> = Vec::new();
        args.push(String::from_str("key"));
        let mut i: usize = 0;
        assert(views(args@) =~= backspace_seq(0));
        while i < count
            invariant
                i <= count,
                views(args@) =~= backspace_seq(i as nat),
            decreases count - i,
        {
            args.push(String::from_str(BACKSPACE_DOWN));
            args.push(String::from_str(BACKSPACE_UP));
            i = i + 1;
            assert(views(args@) =~= backspace_seq(i as nat));
        }
        Some(args)
    }

    /// ydotool arguments that type `text` literally.
    pub fn type_args(&self, text: &str) -> (r: Vec<String>)
        ensures
            views(r@) == seq!["type"@, "--"@, text@],
    {
        let mut args: Vec<String> = Vec::new();
        args.push(String::from_str("type"));
        args.push(String::from_str("--"));
        args.push(String::from_str(text));
        assert(views(args@) =~= seq!["type"@, "--"@, text@]);
        args
    }
}

} // verus!
