//! Samples: what is read back from the kernel side, what it becomes once
//! its addresses have names, and how both are shown.

use vstd::prelude::*;
use vstd::string::*;
use crate::layout::{
    decode_count, decode_native_stack, decode_stack_count_key, long_at, native_stack_of,
    stack_count_key_of, NativeStack, StackCountKey, MAX_STACK_DEPTH, NATIVE_STACK_BYTES,
    STACK_COUNT_KEY_BYTES,
};
use crate::text::{
    address_text, append_address, append_decimal, append_padded_decimal, append_signed_decimal,
    decimal, joined, padded_left, signed_decimal,
};

verus! {

/// The address that stands in a frame that holds an error.
pub const ERROR_ADDRESS: u64 = 0xBAD;

/// The stacks of one thread and how often they were sampled together.
#[derive(Debug, Hash, Eq, PartialEq)]
pub struct RawAggregatedSample {
    pub pid: i32,
    pub tid: i32,
    pub ustack: Option<NativeStack>,
    pub kstack: Option<NativeStack>,
    pub count: u64,
}

#[derive(Clone, Copy, Debug, Eq, Hash, PartialEq)]
pub struct FrameAddress {
    /// The address in the process, as the kernel side collected it.
    pub virtual_address: u64,
    /// The address in the object file.
    pub file_offset: u64,
}

#[derive(Debug, Hash, Eq, PartialEq)]
pub struct Frame {
    /// The address in the process, as the kernel side collected it.
    pub virtual_address: u64,
    /// The address in the object file.
    pub file_offset: Option<u64>,
    pub name: String,
    pub inline: bool,
}

/// The stacks of one thread with names for their addresses, and how often
/// they were sampled together.
#[derive(Debug, Hash, Eq, PartialEq)]
pub struct SymbolizedAggregatedSample {
    pub pid: i32,
    pub tid: i32,
    pub ustack: Vec<Frame>,
    pub kstack: Vec<Frame>,
    pub count: u64,
}

pub type RawAggregatedProfile = Vec<RawAggregatedSample>;

pub type SymbolizedAggregatedProfile = Vec<SymbolizedAggregatedSample>;

/// What was read of one aggregated stack: its key, and what the lookups
/// of its count and of its two stacks gave, where they gave anything.
#[derive(Debug)]
pub struct AggregatedEntry {
    pub key: Vec<u8>,
    pub count: Option<Vec<u8>>,
    pub user_stack: Option<Vec<u8>>,
    pub kernel_stack: Option<Vec<u8>>,
}

/// What std's `Debug` makes of a text: the text between quotation marks,
/// with what has to be escaped in it escaped.
pub uninterp spec fn debug_quoted(text: Seq<char>) -> Seq<char>;

/// `format!` with `{:?}` for a `str`, that is std's `Debug` for `str`:
/// the text as a string literal would hold it.
#[verifier::external_body]
fn quote(text: &str) -> (quoted: String)
    ensures
        quoted@ == debug_quoted(text@),
{
    format!("{:?}", text)
}

/// The stack that a lookup gave, if it gave a whole one.
pub open spec fn stack_read(bytes: Option<Vec<u8>>) -> Option<NativeStack> {
    match bytes {
        Some(b) => if b@.len() >= NATIVE_STACK_BYTES {
            Some(native_stack_of(b@))
        } else {
            None
        },
        None => None,
    }
}

/// The sample that an entry gives: none without a whole key and a whole
/// count; a stack only where the key names one and the lookup gave it.
pub open spec fn sample_of(entry: AggregatedEntry) -> Option<RawAggregatedSample> {
    match entry.count {
        Some(count) => if entry.key@.len() >= STACK_COUNT_KEY_BYTES && count@.len() >= 8 {
            let key = stack_count_key_of(entry.key@);
            Some(
                RawAggregatedSample {
                    pid: key.pid,
                    tid: key.task_id,
                    ustack: if key.user_stack_id > 0 {
                        stack_read(entry.user_stack)
                    } else {
                        None
                    },
                    kstack: if key.kernel_stack_id > 0 {
                        stack_read(entry.kernel_stack)
                    } else {
                        None
                    },
                    count: long_at(count@, 0) as u64,
                },
            )
        } else {
            None
        },
        None => None,
    }
}

/// The samples that the first `n` entries give, in their order.
pub open spec fn profile_of(entries: Seq<AggregatedEntry>, n: int) -> Seq<RawAggregatedSample>
    decreases n,
{
    if n <= 0 {
        Seq::empty()
    } else {
        match sample_of(entries[n - 1]) {
            Some(sample) => profile_of(entries, n - 1).push(sample),
            None => profile_of(entries, n - 1),
        }
    }
}

impl StackCountKey {
    /// Says whether the key names a user stack to look up.
    pub fn wants_user_stack(&self) -> (wanted: bool)
        ensures
            wanted == (self.user_stack_id > 0),
    {
        self.user_stack_id > 0
    }

    /// Says whether the key names a kernel stack to look up.
    pub fn wants_kernel_stack(&self) -> (wanted: bool)
        ensures
            wanted == (self.kernel_stack_id > 0),
    {
        self.kernel_stack_id > 0
    }
}

/// The stack that a lookup gave, if it gave a whole one.
fn read_stack(bytes: &Option<Vec<u8>>) -> (stack: Option<NativeStack>)
    ensures
        stack == stack_read(*bytes),
{
    match bytes {
        Some(b) => decode_native_stack(b),
        None => None,
    }
}

/// The sample that an entry gives.
pub fn raw_sample(entry: &AggregatedEntry) -> (sample: Option<RawAggregatedSample>)
    ensures
        sample == sample_of(*entry),
{
    let count = match &entry.count {
        Some(bytes) => match decode_count(bytes) {
            Some(count) => count,
            None => {
                return None;
            },
        },
        None => {
            return None;
        },
    };
    let key = match decode_stack_count_key(&entry.key) {
        Some(key) => key,
        None => {
            return None;
        },
    };
    let ustack = if key.wants_user_stack() {
        read_stack(&entry.user_stack)
    } else {
        None
    };
    let kstack = if key.wants_kernel_stack() {
        read_stack(&entry.kernel_stack)
    } else {
        None
    };
    Some(RawAggregatedSample { pid: key.pid, tid: key.task_id, ustack, kstack, count })
}

/// The profile that the entries of the table of aggregated stacks give:
/// the sample of each entry that gives one, in the order of the entries.
pub fn collect_profile(entries: &Vec<AggregatedEntry>) -> (profile: Vec<RawAggregatedSample>)
    ensures
        profile@ == profile_of(entries@, entries@.len() as int),
{
    let mut profile: Vec<RawAggregatedSample> = Vec::new();
    let n: usize = entries.len();
    let mut i: usize = 0;
    while i < n
        invariant
            i <= n,
            n == entries.len(),
            profile@ == profile_of(entries@, i as int),
        decreases n - i,
    {
        match raw_sample(&entries[i]) {
            Some(sample) => {
                profile.push(sample);
            },
            None => {},
        }
        i += 1;
    }
    profile
}

/// The number of addresses of a stack that count.
pub open spec fn depth(stack: NativeStack) -> int {
    if stack.len < MAX_STACK_DEPTH {
        stack.len as int
    } else {
        MAX_STACK_DEPTH as int
    }
}

/// The line for the address at place `i` of a stack.
pub open spec fn address_line(stack: NativeStack, i: int) -> Seq<char> {
    padded_left(decimal(i as nat), 3, ' ') + ": "@ + address_text(stack.addresses@[i] as nat)
}

/// The lines for the first `n` addresses of a stack.
pub open spec fn address_lines(stack: NativeStack, n: int) -> Seq<Seq<char>> {
    Seq::new(n as nat, |i: int| address_line(stack, i))
}

/// A stack of addresses as text.
pub open spec fn raw_stack_text(stack: Option<NativeStack>) -> Seq<char> {
    match stack {
        Some(stack) => "["@ + joined(address_lines(stack, depth(stack)), ","@) + "]"@,
        None => "[NONE]"@,
    }
}

/// A frame as text.
pub open spec fn frame_text(frame: Frame) -> Seq<char> {
    if frame.inline {
        "[inlined] "@ + frame.name@
    } else {
        frame.name@
    }
}

/// The line for the frame at place `i` of a stack.
pub open spec fn frame_line(frames: Seq<Frame>, i: int) -> Seq<char> {
    padded_left(decimal(i as nat), 3, ' ') + ": "@ + frame_text(frames[i])
}

/// The lines for the first `n` frames of a stack.
pub open spec fn frame_lines(frames: Seq<Frame>, n: int) -> Seq<Seq<char>> {
    Seq::new(n as nat, |i: int| frame_line(frames, i))
}

/// A stack of frames as text.
pub open spec fn symbolized_stack_text(frames: Seq<Frame>) -> Seq<char> {
    if frames.len() == 0 {
        "[NONE]"@
    } else {
        "["@ + joined(frame_lines(frames, frames.len() as int), ","@) + "]"@
    }
}

proof fn lemma_joined_push(texts: Seq<Seq<char>>, last: Seq<char>, separator: Seq<char>)
    ensures
        joined(texts.push(last), separator) == (if texts.len() == 0 {
            last
        } else {
            joined(texts, separator) + separator + last
        }),
{
    assert(texts.push(last).drop_last() =~= texts);
}

/// A stack of addresses as text: between brackets, for each address its
/// place and the address in hexadecimal; `[NONE]` where there is no stack.
pub fn raw_stack_string(stack: &Option<NativeStack>) -> (text: String)
    ensures
        text@ == raw_stack_text(*stack),
{
    match stack {
        None => String::from_str("[NONE]"),
        Some(stack) => {
            let mut text = String::from_str("[");
            let n: usize = if stack.len < (MAX_STACK_DEPTH as u64) {
                stack.len as usize
            } else {
                MAX_STACK_DEPTH
            };
            let mut i: usize = 0;
            while i < n
                invariant
                    i <= n <= MAX_STACK_DEPTH,
                    text@ == "["@ + joined(address_lines(*stack, i as int), ","@),
                decreases n - i,
            {
                let ghost before = text@;
                if i > 0 {
                    text.append(",");
                }
                append_padded_decimal(&mut text, i as u64, 3);
                text.append(": ");
                append_address(&mut text, stack.addresses[i]);
                proof {
                    let shorter = address_lines(*stack, i as int);
                    let longer = address_lines(*stack, i + 1);
                    assert(longer =~= shorter.push(address_line(*stack, i as int)));
                    lemma_joined_push(shorter, address_line(*stack, i as int), ","@);
                    if i == 0 {
                        assert(joined(shorter, ","@) =~= Seq::<char>::empty());
                    }
                    assert(text@ =~= "["@ + joined(longer, ","@));
                }
                i += 1;
            }
            text.append("]");
            text
        },
    }
}

/// A frame as text.
fn frame_string(frame: &Frame) -> (text: String)
    ensures
        text@ == frame_text(*frame),
{
    let mut text = if frame.inline {
        String::from_str("[inlined] ")
    } else {
        String::new()
    };
    text.append(frame.name.as_str());
    assert(text@ =~= frame_text(*frame));
    text
}

/// A stack of frames as text: between brackets, for each frame its place
/// and its name; `[NONE]` where there is no frame.
pub fn symbolized_stack_string(frames: &Vec<Frame>) -> (text: String)
    ensures
        text@ == symbolized_stack_text(frames@),
{
    if frames.len() == 0 {
        return String::from_str("[NONE]");
    }
    let mut text = String::from_str("[");
    let n: usize = frames.len();
    let mut i: usize = 0;
    while i < n
        invariant
            i <= n,
            n == frames.len(),
            text@ == "["@ + joined(frame_lines(frames@, i as int), ","@),
        decreases n - i,
    {
        if i > 0 {
            text.append(",");
        }
        append_padded_decimal(&mut text, i as u64, 3);
        text.append(": ");
        let line = frame_string(&frames[i]);
        text.append(line.as_str());
        proof {
            let shorter = frame_lines(frames@, i as int);
            let longer = frame_lines(frames@, i + 1);
            assert(longer =~= shorter.push(frame_line(frames@, i as int)));
            lemma_joined_push(shorter, frame_line(frames@, i as int), ","@);
            if i == 0 {
                assert(joined(shorter, ","@) =~= Seq::<char>::empty());
            }
            assert(text@ =~= "["@ + joined(longer, ","@));
        }
        i += 1;
    }
    text.append("]");
    text
}

impl RawAggregatedSample {
    /// The sample as one line of text, with the two stacks as they are
    /// given.
    pub open spec fn text_with(self, ustack: Seq<char>, kstack: Seq<char>) -> Seq<char> {
        "RawAggregatedSample { pid: "@ + signed_decimal(self.pid as int) + ", tid: "@
            + signed_decimal(self.tid as int) + ", ustack: "@ + ustack + ", kstack: "@ + kstack
            + ", count: "@ + decimal(self.count as nat) + " }"@
    }

    /// The sample as one line of text.
    pub open spec fn text(self) -> Seq<char> {
        self.text_with(
            debug_quoted(raw_stack_text(self.ustack)),
            debug_quoted(raw_stack_text(self.kstack)),
        )
    }

    /// The sample as one line of text: the name of the type, then each
    /// field with its name; for the two stacks the texts that are given.
    pub fn display_with(&self, ustack: &str, kstack: &str) -> (line: String)
        ensures
            line@ == self.text_with(ustack@, kstack@),
    {
        let mut line = String::from_str("RawAggregatedSample { pid: ");
        append_signed_decimal(&mut line, self.pid);
        line.append(", tid: ");
        append_signed_decimal(&mut line, self.tid);
        line.append(", ustack: ");
        line.append(ustack);
        line.append(", kstack: ");
        line.append(kstack);
        line.append(", count: ");
        append_decimal(&mut line, self.count);
        line.append(" }");
        line
    }

    /// The sample as one line of text: the name of the type, then each
    /// field with its name; the stacks as quoted lists of their
    /// addresses.
    pub fn display(&self) -> (line: String)
        ensures
            line@ == self.text(),
    {
        let ustack = quote(raw_stack_string(&self.ustack).as_str());
        let kstack = quote(raw_stack_string(&self.kstack).as_str());
        self.display_with(ustack.as_str(), kstack.as_str())
    }
}

impl Clone for Frame {
    fn clone(&self) -> (copy: Frame)
        ensures
            copy == *self,
    {
        Frame {
            virtual_address: self.virtual_address,
            file_offset: self.file_offset,
            name: self.name.clone(),
            inline: self.inline,
        }
    }
}

impl Frame {
    /// The frame that stands for an address that could not be named.
    pub fn with_error(msg: String) -> (frame: Frame)
        ensures
            frame == (Frame {
                virtual_address: ERROR_ADDRESS,
                file_offset: None,
                name: msg,
                inline: false,
            }),
    {
        Frame { virtual_address: ERROR_ADDRESS, file_offset: None, name: msg, inline: false }
    }

    /// The frame as text: its name, marked where the frame was inlined.
    pub fn display(&self) -> (text: String)
        ensures
            text@ == frame_text(*self),
    {
        frame_string(self)
    }
}

impl Default for SymbolizedAggregatedSample {
    fn default() -> (sample: SymbolizedAggregatedSample)
        ensures
            sample.pid == 0,
            sample.tid == 0,
            sample.ustack@.len() == 0,
            sample.kstack@.len() == 0,
            sample.count == 0,
    {
        SymbolizedAggregatedSample {
            pid: 0,
            tid: 0,
            ustack: Vec::new(),
            kstack: Vec::new(),
            count: 0,
        }
    }
}

impl SymbolizedAggregatedSample {
    /// The sample as one line of text, with the two stacks as they are
    /// given.
    pub open spec fn text_with(self, ustack: Seq<char>, kstack: Seq<char>) -> Seq<char> {
        "SymbolizedAggregatedSample { pid: "@ + signed_decimal(self.pid as int) + ", tid: "@
            + signed_decimal(self.tid as int) + ", ustack: "@ + ustack + ", kstack: "@ + kstack
            + ", count: "@ + decimal(self.count as nat) + " }"@
    }

    /// The sample as one line of text.
    pub open spec fn text(self) -> Seq<char> {
        self.text_with(
            debug_quoted(symbolized_stack_text(self.ustack@)),
            debug_quoted(symbolized_stack_text(self.kstack@)),
        )
    }

    /// The sample as one line of text: the name of the type, then each
    /// field with its name; for the two stacks the texts that are given.
    pub fn display_with(&self, ustack: &str, kstack: &str) -> (line: String)
        ensures
            line@ == self.text_with(ustack@, kstack@),
    {
        let mut line = String::from_str("SymbolizedAggregatedSample { pid: ");
        append_signed_decimal(&mut line, self.pid);
        line.append(", tid: ");
        append_signed_decimal(&mut line, self.tid);
        line.append(", ustack: ");
        line.append(ustack);
        line.append(", kstack: ");
        line.append(kstack);
        line.append(", count: ");
        append_decimal(&mut line, self.count);
        line.append(" }");
        line
    }

    /// The sample as one line of text: the name of the type, then each
    /// field with its name; the stacks as quoted lists of their frames.
    pub fn display(&self) -> (line: String)
        ensures
            line@ == self.text(),
    {
        let ustack = quote(symbolized_stack_string(&self.ustack).as_str());
        let kstack = quote(symbolized_stack_string(&self.kstack).as_str());
        self.display_with(ustack.as_str(), kstack.as_str())
    }
}

} // verus!
