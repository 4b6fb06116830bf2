//! The MIDI command section: the list header and the timed commands after it,
//! each command's status byte left out when it repeats the one before.
use super::midi_command::MidiCommand;
use super::midi_command_list_header::{header_encoding, header_length_of, MidiCommandListHeader};
use super::midi_timed_command::{spec_timed_parse, timed_parse_in_bounds, TimedCommand};
use crate::endian::tail_mut;
use crate::byte_facts::lemma_byte_bits;
use crate::io::{Error, ErrorKind};
use vstd::prelude::*;

verus! {

#[derive(Debug, PartialEq, Eq)]
pub struct MidiCommandSection {
    pub phantom_flag: bool,
    pub has_journal: bool,
    pub commands: Vec<TimedCommand>,
}

/// The running status in force before the `i`-th command of a list: none for
/// the first, else the status of the command before it.
pub open spec fn running_status_before(cmds: Seq<TimedCommand>, i: int) -> Option<u8> {
    if i <= 0 {
        None
    } else {
        Some(cmds[i - 1].spec_command().spec_status())
    }
}

/// The bytes of a command list: each command with a delta time unless it is the
/// first and `z_flag` is clear, and with its status byte unless it repeats the
/// status before it.
pub open spec fn list_encoding(cmds: Seq<TimedCommand>, z_flag: bool) -> Seq<u8>
    decreases cmds.len(),
{
    if cmds.len() == 0 {
        Seq::empty()
    } else {
        list_encoding(cmds.drop_last(), z_flag) + cmds.last().spec_encoding(
            running_status_before(cmds, cmds.len() - 1),
            cmds.len() > 1 || z_flag,
        )
    }
}

/// What a timed command is as read: its delta-time bytes, if any, and its command.
pub open spec fn timed_view(t: TimedCommand) -> (Option<Seq<u8>>, MidiCommand) {
    (t.spec_delta_bytes_opt(), t.spec_command())
}

/// The error of a failed timed-command read: running out of bytes for a delta
/// time, or anything else.
pub open spec fn timed_error_kind(bytes: Seq<u8>, has_delta_time: bool) -> ErrorKind {
    if has_delta_time && bytes.len() == 0 {
        ErrorKind::UnexpectedEof
    } else {
        ErrorKind::InvalidData
    }
}

#[verifier::opaque]
/// Reads timed commands from the front of `bytes` until at least `limit` bytes
/// are used, the first with a delta time when `has_delta_time`, the rest always
/// with one, each under the status of the one before.
pub open spec fn spec_parse_list(
    bytes: Seq<u8>,
    limit: int,
    has_delta_time: bool,
    running_status: Option<u8>,
) -> Result<Seq<(Option<Seq<u8>>, MidiCommand)>, ErrorKind>
    decreases (if limit > 0 {
        limit
    } else {
        0
    }),
{
    if limit <= 0 {
        Ok(Seq::empty())
    } else {
        match spec_timed_parse(bytes, running_status, has_delta_time) {
            None => Err(timed_error_kind(bytes, has_delta_time)),
            Some((d, c, n)) => if n > 0 {
                match spec_parse_list(
                    bytes.skip(n as int),
                    limit - n,
                    true,
                    Some(c.spec_status()),
                ) {
                    Ok(rest) => Ok(seq![(d, c)] + rest),
                    Err(k) => Err(k),
                }
            } else {
                Err(ErrorKind::InvalidData)
            },
        }
    }
}

/// The inputs on which reading a command list stays within `bytes`.
#[verifier::opaque]
pub open spec fn list_parse_in_bounds(
    bytes: Seq<u8>,
    limit: int,
    has_delta_time: bool,
    running_status: Option<u8>,
) -> bool
    decreases (if limit > 0 {
        limit
    } else {
        0
    }),
{
    limit <= 0 || (timed_parse_in_bounds(bytes, running_status, has_delta_time) && match spec_timed_parse(
        bytes,
        running_status,
        has_delta_time,
    ) {
        None => true,
        Some((d, c, n)) => n > 0 ==> list_parse_in_bounds(
            bytes.skip(n as int),
            limit - n,
            true,
            Some(c.spec_status()),
        ),
    })
}

pub open spec fn prepend_ok<A>(p: Seq<A>, r: Result<Seq<A>, ErrorKind>) -> Result<Seq<A>, ErrorKind> {
    match r {
        Ok(s) => Ok(p + s),
        Err(k) => Err(k),
    }
}

/// The timed commands as read.
pub open spec fn timed_views(cmds: Seq<TimedCommand>) -> Seq<(Option<Seq<u8>>, MidiCommand)> {
    cmds.map_values(|t: TimedCommand| timed_view(t))
}

/// The size of the list header at the front of `bytes`.
pub open spec fn header_size_at(bytes: Seq<u8>) -> nat {
    if bytes[0] & 0x80 != 0 {
        2
    } else {
        1
    }
}

/// The inputs on which reading a section stays within `bytes`.
pub open spec fn section_in_bounds(bytes: Seq<u8>) -> bool {
    &&& bytes.len() >= 1
    &&& bytes[0] & 0x80 != 0 ==> bytes.len() >= 2
    &&& list_parse_in_bounds(
        bytes.skip(header_size_at(bytes) as int),
        header_length_of(bytes[0], bytes) as int,
        bytes[0] & 0x20 != 0,
        None,
    )
}

/// The commands of the section at the front of `bytes`, as read.
pub open spec fn spec_parse_section(bytes: Seq<u8>) -> Result<
    Seq<(Option<Seq<u8>>, MidiCommand)>,
    ErrorKind,
> {
    spec_parse_list(
        bytes.skip(header_size_at(bytes) as int),
        header_length_of(bytes[0], bytes) as int,
        bytes[0] & 0x20 != 0,
        None,
    )
}

/// One step of reading a command list: an empty remainder when the limit is
/// used up, else the first timed command and the list after it.
pub proof fn lemma_parse_list_step(
    bytes: Seq<u8>,
    limit: int,
    has_delta_time: bool,
    running_status: Option<u8>,
)
    ensures
        limit <= 0 ==> spec_parse_list(bytes, limit, has_delta_time, running_status) == Ok::<
            Seq<(Option<Seq<u8>>, MidiCommand)>,
            ErrorKind,
        >(Seq::empty()),
        limit > 0 && list_parse_in_bounds(bytes, limit, has_delta_time, running_status) ==> {
            &&& timed_parse_in_bounds(bytes, running_status, has_delta_time)
            &&& match spec_timed_parse(bytes, running_status, has_delta_time) {
                None => spec_parse_list(bytes, limit, has_delta_time, running_status) == Err::<
                    Seq<(Option<Seq<u8>>, MidiCommand)>,
                    ErrorKind,
                >(timed_error_kind(bytes, has_delta_time)),
                Some((d, c, n)) => {
                    &&& 1 <= n <= bytes.len()
                    &&& spec_parse_list(bytes, limit, has_delta_time, running_status) == prepend_ok(
                        seq![(d, c)],
                        spec_parse_list(bytes.skip(n as int), limit - n, true, Some(c.spec_status())),
                    )
                    &&& list_parse_in_bounds(
                        bytes.skip(n as int),
                        limit - n,
                        true,
                        Some(c.spec_status()),
                    )
                },
            }
        },
{
    reveal(spec_parse_list);
    reveal(list_parse_in_bounds);
    if limit > 0 && list_parse_in_bounds(bytes, limit, has_delta_time, running_status) {
        lemma_timed_parse_len(bytes, running_status, has_delta_time);
    }
}

/// Prepending in two steps is prepending the concatenation.
pub proof fn lemma_prepend_ok_assoc<A>(p: Seq<A>, q: Seq<A>, r: Result<Seq<A>, ErrorKind>)
    ensures
        prepend_ok(p, prepend_ok(q, r)) == prepend_ok(p + q, r),
{
    if let Ok(t) = r {
        assert(p + (q + t) =~= (p + q) + t);
    }
}

/// A timed command that is read takes at least one byte and no more than there are.
pub proof fn lemma_timed_parse_len(bytes: Seq<u8>, running_status: Option<u8>, has_delta_time: bool)
    requires
        timed_parse_in_bounds(bytes, running_status, has_delta_time),
    ensures
        spec_timed_parse(bytes, running_status, has_delta_time) matches Some((d, c, n)) ==> 1 <= n
            <= bytes.len(),
{
    super::delta_time::lemma_byte_length_well_terminated(bytes);
}

impl MidiCommandSection {
    /// The list's length as the header states it: the bytes of the commands, and
    /// one more when that is above fifteen.
    pub open spec fn spec_body_size(&self, z_flag: bool) -> nat {
        let l = list_encoding(self.commands@, z_flag).len();
        if l > 0x0F {
            l + 1
        } else {
            l
        }
    }

    pub open spec fn spec_body_size_fits(&self, z_flag: bool) -> bool {
        list_encoding(self.commands@, z_flag).len() + 1 <= usize::MAX
    }

    /// The bytes that `write_to_bytes` writes: the header, then the commands.
    pub open spec fn spec_encoding(&self) -> Seq<u8> {
        let l = self.spec_body_size(false);
        header_encoding(
            super::midi_command_list_header::flag_bits(
                l > 0x0F,
                self.has_journal,
                false,
                self.phantom_flag,
            ),
            l as usize,
        ) + list_encoding(self.commands@, false)
    }

    pub fn new(commands: &[TimedCommand]) -> (s: Self)
        ensures
            s.commands@ == commands@,
            !s.phantom_flag,
            !s.has_journal,
    {
        let mut v: Vec<TimedCommand> = Vec::new();
        let mut i: usize = 0;
        while i < commands.len()
            invariant
                i <= commands@.len(),
                v@ == commands@.take(i as int),
            decreases commands@.len() - i,
        {
            v.push(commands[i]);
            i = i + 1;
            assert(v@ =~= commands@.take(i as int));
        }
        assert(commands@.take(i as int) =~= commands@);
        MidiCommandSection { phantom_flag: false, has_journal: false, commands: v }
    }

    pub fn commands(&self) -> (c: &[TimedCommand])
        ensures
            c@ == self.commands@,
    {
        self.commands.as_slice()
    }

    /// The length of the command list with `z_flag`; see `spec_body_size`.
    pub fn body_size(&self, z_flag: bool) -> (n: usize)
        requires
            self.spec_body_size_fits(z_flag),
        ensures
            n == self.spec_body_size(z_flag),
    {
        let mut length: usize = 0;
        let mut running_status: Option<u8> = None;
        let mut i: usize = 0;
        let ghost cmds = self.commands@;
        proof {
            lemma_list_encoding_prefix_len(cmds, z_flag, 0);
            assert(cmds.take(0) =~= Seq::<TimedCommand>::empty());
        }
        while i < self.commands.len()
            invariant
                cmds == self.commands@,
                i <= cmds.len(),
                length == list_encoding(cmds.take(i as int), z_flag).len(),
                running_status == running_status_before(cmds, i as int),
                list_encoding(cmds, z_flag).len() + 1 <= usize::MAX,
            decreases cmds.len() - i,
        {
            let command = &self.commands[i];
            proof {
                lemma_list_encoding_push(cmds, z_flag, i as int);
                lemma_list_encoding_prefix_len(cmds, z_flag, i + 1);
            }
            if i > 0 || z_flag {
                match command.delta_time() {
                    Some(delta_time) => length += delta_time.size(),
                    None => {
                        length += 1;
                    },
                }
            }
            let status = command.command().status();
            let differs = match running_status {
                Some(rs) => rs != status,
                None => true,
            };
            if differs {
                length += 1;
            }
            length += command.command().size();
            running_status = Some(status);
            i = i + 1;
        }
        assert(cmds.take(i as int) =~= cmds);
        if length > 0x0F {
            length += 1;
        }
        length
    }

    /// Reads a section: the list header, then timed commands until the length
    /// it states is used up, the first with a delta time only when the Z flag is
    /// set, each under the running status of the one before. The P and J flags
    /// become `phantom_flag` and `has_journal`.
    pub fn from_be_bytes(bytes: &[u8]) -> (r: Result<Self, Error>)
        requires
            section_in_bounds(bytes@),
        ensures
            match spec_parse_section(bytes@) {
                Ok(list) => r matches Ok(s) && timed_views(s.commands@) == list && s.phantom_flag
                    == (bytes@[0] & 0x10 != 0) && s.has_journal == (bytes@[0] & 0x40 != 0),
                Err(k) => r matches Err(e) && e.kind == k,
            },
    {
        let header = match MidiCommandListHeader::from_be_bytes(bytes) {
            Ok(h) => h,
            Err(e) => return Err(e),
        };
        let b0 = bytes[0];
        assert(((b0 & 0xF0) & 0x80 != 0) == (b0 & 0x80 != 0) && ((b0 & 0xF0) & 0x20 != 0) == (b0
            & 0x20 != 0) && ((b0 & 0xF0) & 0x10 != 0) == (b0 & 0x10 != 0) && ((b0 & 0xF0) & 0x40
            != 0) == (b0 & 0x40 != 0)) by (bit_vector);
        let z_flag = header.flags().z_flag();
        let length = header.length();
        let offset = MidiCommandListHeader::size(header.flags().b_flag());
        let total = bytes.len();
        let ghost s0 = bytes@.skip(offset as int);
        assert(spec_parse_section(bytes@) == spec_parse_list(s0, length as int, z_flag, None));
        let mut commands: Vec<TimedCommand> = Vec::new();
        let mut consumed: usize = 0;
        let mut running_status: Option<u8> = None;
        assert(timed_views(commands@) =~= Seq::empty());
        assert(s0.skip(0) =~= s0);
        while consumed < length
            invariant
                s0 == bytes@.skip(offset as int),
                spec_parse_section(bytes@) == spec_parse_list(s0, length as int, z_flag, None),
                total == bytes@.len(),
                offset <= bytes@.len(),
                offset + consumed <= bytes@.len(),
                consumed == 0 <==> commands@.len() == 0,
                running_status == (if commands@.len() == 0 {
                    None
                } else {
                    Some(commands@.last().spec_command().spec_status())
                }),
                list_parse_in_bounds(
                    s0.skip(consumed as int),
                    length - consumed,
                    commands@.len() > 0 || z_flag,
                    running_status,
                ),
                spec_parse_list(s0, length as int, z_flag, None) == prepend_ok(
                    timed_views(commands@),
                    spec_parse_list(
                        s0.skip(consumed as int),
                        length - consumed,
                        commands@.len() > 0 || z_flag,
                        running_status,
                    ),
                ),
            decreases bytes@.len() - consumed,
        {
            let has_delta_time = commands.len() > 0 || z_flag;
            let rest = &bytes[offset + consumed..bytes.len()];
            assert(rest@ =~= s0.skip(consumed as int));
            proof {
                lemma_parse_list_step(rest@, length - consumed, has_delta_time, running_status);
            }
            let (command, n) = match TimedCommand::from_be_bytes(rest, running_status, has_delta_time) {
                Ok(x) => x,
                Err(e) => {
                    assert(e.kind == timed_error_kind(rest@, has_delta_time));
                    assert(spec_parse_list(rest@, length - consumed, has_delta_time, running_status)
                        == Err::<Seq<(Option<Seq<u8>>, MidiCommand)>, ErrorKind>(e.kind));
                    assert(spec_parse_section(bytes@) == Err::<
                        Seq<(Option<Seq<u8>>, MidiCommand)>,
                        ErrorKind,
                    >(e.kind));
                    return Err(e);
                },
            };
            let ghost old_views = timed_views(commands@);
            let ghost x = spec_parse_list(
                rest@.skip(n as int),
                length - consumed - n,
                true,
                Some(command.spec_command().spec_status()),
            );
            proof {
                lemma_prepend_ok_assoc(old_views, seq![timed_view(command)], x);
            }
            consumed += n;
            running_status = Some(command.command().status());
            commands.push(command);
            proof {
                assert(s0.skip(consumed as int) =~= rest@.skip(n as int));
                assert(timed_views(commands@) =~= old_views + seq![timed_view(command)]);
            }
        }
        proof {
            lemma_parse_list_step(
                s0.skip(consumed as int),
                length - consumed,
                commands@.len() > 0 || z_flag,
                running_status,
            );
        }
        assert(timed_views(commands@) + Seq::empty() =~= timed_views(commands@));
        let phantom_flag = header.flags().p_flag();
        let has_journal = header.flags().j_flag();
        assert(phantom_flag == (bytes@[0] & 0x10 != 0));
        assert(has_journal == (bytes@[0] & 0x40 != 0));
        assert(spec_parse_section(bytes@) == Ok::<Seq<(Option<Seq<u8>>, MidiCommand)>, ErrorKind>(
            timed_views(commands@),
        ));
        Ok(MidiCommandSection { phantom_flag, has_journal, commands })
    }

    /// The section's size in bytes: header and command list.
    pub fn size(&self) -> (n: usize)
        requires
            self.spec_body_size_fits(false),
            list_encoding(self.commands@, false).len() + 3 <= usize::MAX,
        ensures
            n == (if self.spec_body_size(false) > 0x0F { 2nat } else { 1nat }) + self.spec_body_size(
                false,
            ),
    {
        let body = self.body_size(false);
        MidiCommandListHeader::size(body > 0x0F) + body
    }

    /// Writes the header (B flag when needed, J from `has_journal`, Z clear, P
    /// from `phantom_flag`) and then the commands, the first without a delta time.
    pub fn write_to_bytes(&self, bytes: &mut [u8]) -> (r: Result<usize, Error>)
        requires
            self.spec_body_size_fits(false),
            self.spec_body_size(false) <= 0x0FFF,
            old(bytes)@.len() >= self.spec_encoding().len(),
        ensures
            r matches Ok(n) && n == self.spec_encoding().len() && final(bytes)@
                == self.spec_encoding() + old(bytes)@.skip(n as int),
    {
        let total = bytes.len();
        let header = MidiCommandListHeader::build_for(self, self.has_journal, false, self.phantom_flag);
        let mut written = match header.write_to_bytes(bytes) {
            Ok(n) => n,
            Err(e) => return Err(e),
        };
        let ghost hdr = bytes@.take(written as int);
        assert(old(bytes)@.len() == total);
        let ghost cmds = self.commands@;
        let mut running_status: Option<u8> = None;
        let mut i: usize = 0;
        proof {
            lemma_list_encoding_prefix_len(cmds, false, cmds.len() as int);
            assert(cmds.take(0) =~= Seq::<TimedCommand>::empty());
            assert(bytes@ =~= hdr + list_encoding(cmds.take(0), false) + old(bytes)@.skip(
                written as int,
            ));
        }
        while i < self.commands.len()
            invariant
                cmds == self.commands@,
                i <= cmds.len(),
                hdr.len() + list_encoding(cmds, false).len() <= old(bytes)@.len(),
                old(bytes)@.len() <= usize::MAX,
                written == hdr.len() + list_encoding(cmds.take(i as int), false).len(),
                bytes@ == hdr + list_encoding(cmds.take(i as int), false) + old(bytes)@.skip(
                    written as int,
                ),
                running_status == running_status_before(cmds, i as int),
            decreases cmds.len() - i,
        {
            let command = &self.commands[i];
            proof {
                lemma_list_encoding_push(cmds, false, i as int);
                lemma_list_encoding_prefix_len(cmds, false, i + 1);
            }
            let ghost before = bytes@;
            let tail = tail_mut(bytes, written);
            let n = match command.write_to_bytes(tail, running_status, i > 0) {
                Ok(n) => n,
                Err(e) => return Err(e),
            };
            assert(written + n <= old(bytes)@.len());
            proof {
                assert(bytes@ =~= hdr + list_encoding(cmds.take(i + 1), false) + old(bytes)@.skip(
                    written + n,
                ));
            }
            written += n;
            running_status = Some(command.command().status());
            i = i + 1;
        }
        assert(cmds.take(i as int) =~= cmds);
        Ok(written)
    }
}

/// Appending a command to a list appends its bytes under the status before it.
pub proof fn lemma_list_encoding_push(cmds: Seq<TimedCommand>, z_flag: bool, i: int)
    requires
        0 <= i < cmds.len(),
    ensures
        list_encoding(cmds.take(i + 1), z_flag) == list_encoding(cmds.take(i), z_flag) + cmds[i].spec_encoding(
            running_status_before(cmds, i),
            i > 0 || z_flag,
        ),
{
    let t = cmds.take(i + 1);
    assert(t.drop_last() =~= cmds.take(i));
    assert(t.last() == cmds[i]);
    if i > 0 {
        assert(t[i - 1] == cmds[i - 1]);
    }
}

/// The bytes of a prefix of a list are no more than those of the whole list.
pub proof fn lemma_list_encoding_prefix_len(cmds: Seq<TimedCommand>, z_flag: bool, i: int)
    requires
        0 <= i <= cmds.len(),
    ensures
        list_encoding(cmds.take(i), z_flag).len() <= list_encoding(cmds, z_flag).len(),
    decreases cmds.len() - i,
{
    if i < cmds.len() {
        lemma_list_encoding_push(cmds, z_flag, i);
        lemma_list_encoding_prefix_len(cmds, z_flag, i + 1);
    } else {
        assert(cmds.take(i) =~= cmds);
    }
}

/// The bytes of the commands of a list from the `i`-th on, each under the
/// status of the one before it in the whole list.
pub open spec fn list_suffix(cmds: Seq<TimedCommand>, i: int, z_flag: bool) -> Seq<u8>
    decreases cmds.len() - i,
{
    if i < 0 || i >= cmds.len() {
        Seq::empty()
    } else {
        cmds[i].spec_encoding(running_status_before(cmds, i), i > 0 || z_flag) + list_suffix(cmds, i + 1, z_flag)
    }
}

/// The bytes of a list are those of its first `k` commands, then those of the rest.
pub proof fn lemma_list_split(cmds: Seq<TimedCommand>, z_flag: bool, k: int)
    requires
        0 <= k <= cmds.len(),
    ensures
        list_encoding(cmds, z_flag) == list_encoding(cmds.take(k), z_flag) + list_suffix(cmds, k, z_flag),
    decreases cmds.len() - k,
{
    if k == cmds.len() {
        assert(cmds.take(k) =~= cmds);
        assert(list_encoding(cmds.take(k), z_flag) + Seq::<u8>::empty() =~= list_encoding(cmds.take(k), z_flag));
    } else {
        lemma_list_split(cmds, z_flag, k + 1);
        lemma_list_encoding_push(cmds, z_flag, k);
        assert(list_encoding(cmds.take(k), z_flag) + list_suffix(cmds, k, z_flag) =~= (list_encoding(
            cmds.take(k),
            z_flag,
        ) + cmds[k].spec_encoding(running_status_before(cmds, k), k > 0 || z_flag)) + list_suffix(
            cmds,
            k + 1,
            z_flag,
        ));
    }
}

/// The conditions under which the commands of a section read back as written:
/// delta times well formed, channels below 16, and the first data byte below
/// 0x80 when the status byte is left out.
pub open spec fn section_reads_back(cmds: Seq<TimedCommand>) -> bool {
    forall|i: int|
        0 <= i < cmds.len() ==> {
            let t = #[trigger] cmds[i];
            &&& (t.spec_delta_time() matches Some(d) ==> d.wf())
            &&& t.spec_command().spec_channel() < 16
            &&& running_status_before(cmds, i) == Some(t.spec_command().spec_status())
                ==> t.spec_command().spec_data()[0] < 0x80
        }
}

/// What reading back the `i`-th command of a section gives: no delta time for
/// the first, else its delta-time bytes (a zero byte when it had none), and its
/// command.
pub open spec fn written_view(cmds: Seq<TimedCommand>, i: int) -> (Option<Seq<u8>>, MidiCommand) {
    (
        if i == 0 {
            None
        } else {
            Some(cmds[i].spec_delta_bytes())
        },
        cmds[i].spec_command(),
    )
}

/// Reading a list whose limit is used up gives nothing, within bounds.
proof fn lemma_parse_list_done(bytes: Seq<u8>, has_delta_time: bool, running_status: Option<u8>)
    ensures
        list_parse_in_bounds(bytes, 0, has_delta_time, running_status),
        spec_parse_list(bytes, 0, has_delta_time, running_status) == Ok::<
            Seq<(Option<Seq<u8>>, MidiCommand)>,
            ErrorKind,
        >(Seq::empty()),
{
    reveal(spec_parse_list);
    reveal(list_parse_in_bounds);
}

/// One step of reading a list, from a timed command that reads within bounds.
proof fn lemma_parse_list_unfold(
    bytes: Seq<u8>,
    limit: int,
    has_delta_time: bool,
    running_status: Option<u8>,
    d: Option<Seq<u8>>,
    c: MidiCommand,
    n: nat,
)
    requires
        limit > 0,
        timed_parse_in_bounds(bytes, running_status, has_delta_time),
        spec_timed_parse(bytes, running_status, has_delta_time) == Some((d, c, n)),
        n > 0,
    ensures
        list_parse_in_bounds(bytes, limit, has_delta_time, running_status) == list_parse_in_bounds(
            bytes.skip(n as int),
            limit - n,
            true,
            Some(c.spec_status()),
        ),
        spec_parse_list(bytes, limit, has_delta_time, running_status) == prepend_ok(
            seq![(d, c)],
            spec_parse_list(bytes.skip(n as int), limit - n, true, Some(c.spec_status())),
        ),
{
    reveal(spec_parse_list);
    reveal(list_parse_in_bounds);
}

/// Reading the bytes of the commands of a section from the `i`-th on, with the
/// limit that their length sets, gives those commands back, whatever follows.
proof fn lemma_parse_suffix(cmds: Seq<TimedCommand>, i: int, rest: Seq<u8>)
    requires
        0 <= i <= cmds.len(),
        section_reads_back(cmds),
    ensures
        ({
            let b = list_suffix(cmds, i, false) + rest;
            let limit = list_suffix(cmds, i, false).len() as int;
            &&& list_parse_in_bounds(b, limit, i > 0, running_status_before(cmds, i))
            &&& spec_parse_list(b, limit, i > 0, running_status_before(cmds, i)) == Ok::<
                Seq<(Option<Seq<u8>>, MidiCommand)>,
                ErrorKind,
            >(Seq::new((cmds.len() - i) as nat, |j: int| written_view(cmds, i + j)))
        }),
    decreases cmds.len() - i,
{
    if i == cmds.len() {
        assert(list_suffix(cmds, i, false) == Seq::<u8>::empty());
        lemma_parse_list_done(list_suffix(cmds, i, false) + rest, i > 0, running_status_before(cmds, i));
        assert(Seq::new((cmds.len() - i) as nat, |j: int| written_view(cmds, i + j)) =~= Seq::<
            (Option<Seq<u8>>, MidiCommand),
        >::empty());
    } else {
        let t = cmds[i];
        let c = t.spec_command();
        let rs = running_status_before(cmds, i);
        let enc = t.spec_encoding(rs, i > 0);
        let tail = list_suffix(cmds, i + 1, false) + rest;
        let b = list_suffix(cmds, i, false) + rest;
        assert(b =~= enc + tail);
        assert(section_reads_back(cmds));
        assert(c.spec_channel() < 16);
        lemma_parse_suffix(cmds, i + 1, rest);
        assert(running_status_before(cmds, i + 1) == Some(c.spec_status()));
        if i > 0 {
            super::midi_timed_command::lemma_write_then_read(t, rs, tail);
        } else {
            super::midi_command::lemma_write_then_read(c, rs, tail);
            assert(enc == c.spec_encoding(rs));
            assert(b.skip(0) =~= b);
        }
        let n = enc.len();
        assert(c.spec_data().len() >= 1);
        assert(n >= 1);
        assert(b.skip(n as int) =~= tail);
        lemma_parse_list_unfold(b, list_suffix(cmds, i, false).len() as int, i > 0, rs, written_view(cmds, i).0, c, n);
        assert(Seq::new((cmds.len() - i) as nat, |j: int| written_view(cmds, i + j)) =~= seq![
            written_view(cmds, i),
        ] + Seq::new((cmds.len() - (i + 1)) as nat, |j: int| written_view(cmds, i + 1 + j)));
    }
}

/// A section written by `write_to_bytes` is read back by `from_be_bytes`, whatever
/// follows it: its commands (the first without a delta time, the others with
/// their delta-time bytes, a zero byte when they had none), its phantom and
/// journal flags, when its commands satisfy `section_reads_back` and take no
/// more than fifteen bytes (above that the header counts one byte more than the
/// list holds).
pub proof fn lemma_write_then_parse(s: MidiCommandSection, rest: Seq<u8>)
    requires
        section_reads_back(s.commands@),
        list_encoding(s.commands@, false).len() <= 0x0F,
    ensures
        ({
            let b = s.spec_encoding() + rest;
            &&& section_in_bounds(b)
            &&& spec_parse_section(b) == Ok::<Seq<(Option<Seq<u8>>, MidiCommand)>, ErrorKind>(
                Seq::new(s.commands@.len(), |j: int| written_view(s.commands@, j)),
            )
            &&& (b[0] & 0x10 != 0) == s.phantom_flag
            &&& (b[0] & 0x40 != 0) == s.has_journal
        }),
{
    let cmds = s.commands@;
    let l = s.spec_body_size(false);
    let f = super::midi_command_list_header::flag_bits(false, s.has_journal, false, s.phantom_flag);
    let list = list_encoding(cmds, false);
    let b = s.spec_encoding() + rest;
    super::midi_command_list_header::lemma_flag_bits(false, s.has_journal, false, s.phantom_flag);
    super::midi_command_list_header::lemma_write_then_read(f, l as usize, list + rest);
    assert(b =~= header_encoding(f, l as usize) + (list + rest));
    let h = header_encoding(f, l as usize);
    assert(h.len() == 1);
    assert(b.skip(1) =~= list + rest);
    lemma_list_split(cmds, false, 0);
    assert(cmds.take(0) =~= Seq::<TimedCommand>::empty());
    assert(list =~= list_suffix(cmds, 0, false));
    lemma_parse_suffix(cmds, 0, rest);
    assert(b[0] & 0xF0 == f);
    assert((b[0] & 0x20 != 0) == (f & 0x20 != 0) && (b[0] & 0x10 != 0) == (f & 0x10 != 0) && (b[0]
        & 0x40 != 0) == (f & 0x40 != 0)) by {
        lemma_byte_bits();
        let x = b[0];
        assert((x & 0xF0) & 0x20 == x & 0x20 && (x & 0xF0) & 0x10 == x & 0x10 && (x & 0xF0) & 0x40
            == x & 0x40) by (bit_vector);
    }
    assert(Seq::new((cmds.len() - 0) as nat, |j: int| written_view(cmds, 0 + j)) =~= Seq::new(
        cmds.len(),
        |j: int| written_view(cmds, j),
    ));
}

} // verus!
