use vstd::prelude::*;

verus! {

/// The iptables chain a diversion rule lives in.
pub enum Chain {
    Output,
    Prerouting,
    Input,
}

/// One iptables rule, as structured data: the I/O layer renders and
/// installs it, and reverses it on shutdown.
pub struct IptablesRule {
    pub mangle: bool,
    pub chain: Chain,
    pub dport: Option<u16>,
    pub sport: Option<u16>,
    pub mark: Option<u32>,
    pub mark_negated: bool,
    pub src_excluded: Option<u32>,
    pub queue_num: u16,
}

/// A scoped system mutation: the command to run now and the command that
/// undoes it. The I/O layer executes `call_args` when the guard is set up
/// and `cleanup_args` when it is released, on every exit path.
pub struct CommandGuard<'a> {
    pub command: &'a str,
    pub server: bool,
    pub call_args: Option<String>,
    pub cleanup_args: Option<String>,
}

impl<'a> CommandGuard<'a> {
    /// A guard for `command` with nothing recorded yet.
    pub fn new(command: &'a str) -> (r: Self)
        ensures
            r.command == command,
            !r.server,
            r.call_args is None,
            r.cleanup_args is None,
    {
        CommandGuard { command, server: false, call_args: None, cleanup_args: None }
    }

    /// As `new`, but marked as a server-side mutation.
    pub fn server(command: &'a str) -> (r: Self)
        ensures
            r.command == command,
            r.server,
            r.call_args is None,
            r.cleanup_args is None,
    {
        CommandGuard { command, server: true, call_args: None, cleanup_args: None }
    }

    /// Records the arguments the command is to be invoked with.
    pub fn call(self, args: String) -> (r: Self)
        ensures
            r.command == self.command,
            r.server == self.server,
            r.call_args matches Some(a) && a@ == args@,
            r.cleanup_args == self.cleanup_args,
    {
        CommandGuard { call_args: Some(args), ..self }
    }

    /// Records the arguments that undo the call on release.
    pub fn cleanup(self, args: String) -> (r: Self)
        ensures
            r.command == self.command,
            r.server == self.server,
            r.call_args == self.call_args,
            r.cleanup_args matches Some(a) && a@ == args@,
    {
        CommandGuard { cleanup_args: Some(args), ..self }
    }
}

/// The guard that turns on IPv4 forwarding and restores the saved setting
/// on release. `saved` is the value the sysctl held before the call, read
/// by the I/O layer; the recorded cleanup writes exactly that value back.
pub fn forwarding<'a>(saved: bool) -> (r: CommandGuard<'a>)
    ensures
        r.command@ == "sysctl"@,
        !r.server,
        r.call_args matches Some(a) && a@ == "-w net.ipv4.ip_forward=1"@,
        r.cleanup_args matches Some(a) && a@ == (if saved {
            "-w net.ipv4.ip_forward=1"@
        } else {
            "-w net.ipv4.ip_forward=0"@
        }),
{
    let restore = if saved {
        "-w net.ipv4.ip_forward=1".to_owned()
    } else {
        "-w net.ipv4.ip_forward=0".to_owned()
    };
    CommandGuard::new("sysctl").call("-w net.ipv4.ip_forward=1".to_owned()).cleanup(restore)
}

/// The repeating key that `xor_in_place` mixes into a buffer.
pub open spec fn xor_key() -> Seq<u8> {
    seq![118u8, 101u8, 114u8, 121u8, 45u8, 115u8, 101u8, 99u8, 114u8, 101u8, 116u8]
}

/// Masks a buffer in place: byte `i` is XORed with the key byte at
/// `(seed + i)` modulo the key length. Applying it twice with the same seed
/// restores the buffer.
pub fn xor_in_place(buf: &mut Vec<u8>, seed: usize)
    requires
        seed + old(buf)@.len() <= usize::MAX,
    ensures
        final(buf)@.len() == old(buf)@.len(),
        forall|i: int|
            0 <= i < old(buf)@.len() ==> final(buf)@[i] == (old(buf)@[i] ^ xor_key()[(seed + i)
                % 11]),
{
    let key: [u8; 11] = [118, 101, 114, 121, 45, 115, 101, 99, 114, 101, 116];
    proof {
        assert(key@ =~= xor_key());
    }
    let n = buf.len();
    let mut i: usize = 0;
    while i < n
        invariant
            n == buf@.len() == old(buf)@.len(),
            seed + n <= usize::MAX,
            0 <= i <= n,
            key@ =~= xor_key(),
            forall|j: int|
                0 <= j < i ==> buf@[j] == (old(buf)@[j] ^ xor_key()[(seed + j) % 11]),
            forall|j: int| i <= j < n ==> buf@[j] == old(buf)@[j],
        decreases n - i,
    {
        let b = buf[i] ^ key[(seed + i) % 11];
        buf.set(i, b);
        i = i + 1;
    }
}

/// Applying the mask twice with the same seed restores every byte.
pub proof fn lemma_xor_involution(a: Seq<u8>, b: Seq<u8>, c: Seq<u8>, seed: int)
    requires
        a.len() == b.len() == c.len(),
        forall|i: int| 0 <= i < a.len() ==> b[i] == (a[i] ^ xor_key()[(seed + i) % 11]),
        forall|i: int| 0 <= i < b.len() ==> c[i] == (b[i] ^ xor_key()[(seed + i) % 11]),
    ensures
        c =~= a,
{
    assert forall|i: int| 0 <= i < a.len() implies c[i] == a[i] by {
        let k = xor_key()[(seed + i) % 11];
        let x = a[i];
        assert((x ^ k) ^ k == x) by (bit_vector);
    }
}

} // verus!
