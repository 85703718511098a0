//! Backend choice, GPU uploads, the pipeline cache, and blurs that run on
//! their own.

use std::collections::HashMap;
use vstd::prelude::*;

use crate::text::{ascii_lower, chars_of};

verus! {

// ── Backend choice ───────────────────────────────────────────────────────

/// Where the images are computed.
#[derive(Clone, Copy, Debug, PartialEq, Eq, Structural)]
pub enum BackendKind {
    Gpu,
    Cpu,
}

/// The setting asks for the CPU: "cpu" in any case.
pub open spec fn asks_for_cpu(setting: Option<&str>) -> bool {
    match setting {
        Some(v) => v@.len() == 3 && ascii_lower(v@[0]) == 'c' && ascii_lower(v@[1]) == 'p'
            && ascii_lower(v@[2]) == 'u',
        None => false,
    }
}

fn is_letter(c: char, lower: char, upper: char) -> (r: bool)
    requires
        'a' <= lower <= 'z',
        upper as u32 + 32 == lower as u32,
    ensures
        r == (ascii_lower(c) == lower),
{
    c == lower || c == upper
}

/// The setting forces the CPU backend even where a GPU is at hand.
pub fn force_cpu(setting: Option<&str>) -> (r: bool)
    ensures
        r == asks_for_cpu(setting),
{
    match setting {
        Some(v) => {
            let c = chars_of(v);
            c.len() == 3 && is_letter(c[0], 'c', 'C') && is_letter(c[1], 'p', 'P') && is_letter(
                c[2],
                'u',
                'U',
            )
        },
        None => false,
    }
}

/// The backend to use: the GPU where there is one and the setting does not
/// force the CPU.
pub fn select_backend(setting: Option<&str>, gpu_available: bool) -> (r: BackendKind)
    ensures
        r == if gpu_available && !asks_for_cpu(setting) {
            BackendKind::Gpu
        } else {
            BackendKind::Cpu
        },
{
    if gpu_available && !force_cpu(setting) {
        BackendKind::Gpu
    } else {
        BackendKind::Cpu
    }
}

impl BackendKind {
    pub fn name(self) -> (r: &'static str)
        ensures
            self == BackendKind::Gpu ==> r@ == "wgpu (GPU)"@,
            self == BackendKind::Cpu ==> r@ == "CPU"@,
    {
        match self {
            BackendKind::Gpu => "wgpu (GPU)",
            BackendKind::Cpu => "CPU",
        }
    }
}

// ── Uploads ──────────────────────────────────────────────────────────────

/// Bytes of a word, the lowest first.
pub open spec fn le_bytes(w: u32) -> Seq<u8> {
    seq![
        (w % 256) as u8,
        (w / 256 % 256) as u8,
        (w / 65536 % 256) as u8,
        (w / 16777216) as u8,
    ]
}

/// Byte `j` of the words, each word with its lowest byte first.
pub open spec fn le_byte_at(words: Seq<u32>, j: int) -> u8 {
    le_bytes(words[j / 4])[j % 4]
}

/// Byte `j` of the words, each word with its highest byte first.
pub open spec fn be_byte_at(words: Seq<u32>, j: int) -> u8 {
    le_bytes(words[j / 4])[3 - j % 4]
}

/// `bytemuck::cast_slice` from words to bytes: the memory of the words, four
/// bytes to a word. Which end of a word comes first is the machine's, and is
/// the same for all the words.
#[verifier::external_body]
pub(crate) fn words_as_bytes(words: &[u32]) -> (r: Vec<u8>)
    ensures
        r@.len() == 4 * words@.len(),
        (forall|j: int| 0 <= j < r@.len() ==> #[trigger] r@[j] == le_byte_at(words@, j)) || (
        forall|j: int| 0 <= j < r@.len() ==> #[trigger] r@[j] == be_byte_at(words@, j)),
{
    bytemuck::cast_slice::<u32, u8>(words).to_vec()
}

/// A block of words as the bytes of a GPU buffer, in the machine's order.
pub fn buffer_bytes(words: &[u32]) -> (r: Vec<u8>)
    ensures
        r@.len() == 4 * words@.len(),
        (forall|j: int| 0 <= j < r@.len() ==> #[trigger] r@[j] == le_byte_at(words@, j)) || (
        forall|j: int| 0 <= j < r@.len() ==> #[trigger] r@[j] == be_byte_at(words@, j)),
{
    words_as_bytes(words)
}

// ── Pipeline cache ───────────────────────────────────────────────────────

/// Which compute pipelines have been compiled: the key of a shader source,
/// and the slot that its pipeline was given.
pub struct PipelineCache {
    slots: HashMap<usize, usize>,
}

/// The slots are the first whole numbers, each given to one key.
pub open spec fn numbered(slots: Map<usize, usize>) -> bool {
    &&& slots.dom().finite()
    &&& forall|k: usize| #[trigger] slots.contains_key(k) ==> slots[k] < slots.dom().len()
    &&& forall|j: usize, k: usize|
        #![trigger slots.contains_key(j), slots.contains_key(k)]
        slots.contains_key(j) && slots.contains_key(k) && slots[j] == slots[k] ==> j == k
}

/// The slots after a key was asked for: a new key gets the next.
pub open spec fn with_key(slots: Map<usize, usize>, key: usize) -> Map<usize, usize> {
    if slots.contains_key(key) {
        slots
    } else {
        slots.insert(key, slots.dom().len() as usize)
    }
}

impl PipelineCache {
    /// The slot of each key.
    pub closed spec fn view(&self) -> Map<usize, usize> {
        self.slots@
    }

    pub open spec fn valid(&self) -> bool {
        numbered(self@)
    }

    pub fn new() -> (r: PipelineCache)
        ensures
            r.valid(),
            r@ == Map::<usize, usize>::empty(),
    {
        PipelineCache { slots: HashMap::new() }
    }

    /// The slot of a key, and whether its pipeline is yet to be compiled.
    /// A key that was asked for before keeps its slot; a new one gets the
    /// next.
    pub fn cached_pipeline(&mut self, key: usize) -> (r: (usize, bool))
        requires
            old(self).valid(),
        ensures
            final(self).valid(),
            final(self)@ == with_key(old(self)@, key),
            r.0 == final(self)@[key],
            r.1 == !old(self)@.contains_key(key),
    {
        broadcast use vstd::std_specs::hash::group_hash_axioms;

        if let Some(slot) = self.slots.get(&key) {
            return (*slot, false);
        }
        let slot: usize = self.slots.len();
        self.slots.insert(key, slot);
        (slot, true)
    }
}

/// Asking for a key keeps the slots numbered, and asking for it again
/// compiles nothing: it is there, in the slot that it was given.
pub proof fn lemma_cache_hit(before: Map<usize, usize>, key: usize)
    requires
        numbered(before),
        before.dom().len() <= usize::MAX,
    ensures
        numbered(with_key(before, key)),
        with_key(before, key).contains_key(key),
        with_key(with_key(before, key), key) == with_key(before, key),
        before.contains_key(key) ==> with_key(before, key)[key] == before[key],
{
}

// ── Blurs on their own ───────────────────────────────────────────────────

/// A buffer of a blur of one image by several kernels.
#[derive(Clone, Copy, Debug, PartialEq, Eq, Structural)]
pub enum BlurBuffer {
    Input,
    Mid,
    Output(u32),
    Readback(u32),
}

/// One command of such a blur.
#[derive(Clone, Copy, Debug, PartialEq, Eq, Structural)]
pub enum BlurCommand {
    /// Input to mid, by kernel `i`.
    Horizontal(u32),
    /// Mid to output `i`, by kernel `i`.
    Vertical(u32),
    /// Output `i` to readback `i`.
    Copy(u32),
}

/// Commands for the first `n` kernels.
pub open spec fn blur_commands(n: nat) -> Seq<BlurCommand>
    decreases n,
{
    if n == 0 {
        Seq::empty()
    } else {
        let i = (n - 1) as u32;
        blur_commands((n - 1) as nat) + seq![
            BlurCommand::Horizontal(i),
            BlurCommand::Vertical(i),
            BlurCommand::Copy(i),
        ]
    }
}

impl BlurCommand {
    pub open spec fn source(self) -> BlurBuffer {
        match self {
            BlurCommand::Horizontal(_) => BlurBuffer::Input,
            BlurCommand::Vertical(_) => BlurBuffer::Mid,
            BlurCommand::Copy(i) => BlurBuffer::Output(i),
        }
    }

    pub open spec fn target(self) -> BlurBuffer {
        match self {
            BlurCommand::Horizontal(_) => BlurBuffer::Mid,
            BlurCommand::Vertical(i) => BlurBuffer::Output(i),
            BlurCommand::Copy(i) => BlurBuffer::Readback(i),
        }
    }

    /// The buffer that the command reads.
    pub fn reads(self) -> (r: BlurBuffer)
        ensures
            r == self.source(),
    {
        match self {
            BlurCommand::Horizontal(_) => BlurBuffer::Input,
            BlurCommand::Vertical(_) => BlurBuffer::Mid,
            BlurCommand::Copy(i) => BlurBuffer::Output(i),
        }
    }

    /// The buffer that the command writes.
    pub fn writes(self) -> (r: BlurBuffer)
        ensures
            r == self.target(),
    {
        match self {
            BlurCommand::Horizontal(_) => BlurBuffer::Mid,
            BlurCommand::Vertical(i) => BlurBuffer::Output(i),
            BlurCommand::Copy(i) => BlurBuffer::Readback(i),
        }
    }
}

/// The commands that blur one uploaded image by each of `n` kernels, in one
/// command buffer.
pub fn gaussian_blur_multi_gpu(n: u32) -> (r: Vec<BlurCommand>)
    requires
        n > 0,
    ensures
        r@ == blur_commands(n as nat),
{
    let mut r: Vec<BlurCommand> = Vec::new();
    let mut i: u32 = 0;
    while i < n
        invariant
            i <= n,
            r@ == blur_commands(i as nat),
        decreases n - i,
    {
        r.push(BlurCommand::Horizontal(i));
        r.push(BlurCommand::Vertical(i));
        r.push(BlurCommand::Copy(i));
        i += 1;
        assert(r@ =~= blur_commands(i as nat));
    }
    r
}

/// The commands that blur one image by one kernel.
pub fn gaussian_blur_gpu() -> (r: Vec<BlurCommand>)
    ensures
        r@ == seq![
            BlurCommand::Horizontal(0),
            BlurCommand::Vertical(0),
            BlurCommand::Copy(0),
        ],
{
    let r = gaussian_blur_multi_gpu(1);
    proof {
        reveal_with_fuel(blur_commands, 2);
        assert(r@ =~= seq![
            BlurCommand::Horizontal(0),
            BlurCommand::Vertical(0),
            BlurCommand::Copy(0),
        ]);
    }
    r
}

/// A value of a buffer of such a blur.
pub enum BlurTerm {
    Initial(BlurBuffer),
    /// Blurred along the rows by kernel `i`.
    Rows(u32, Box<BlurTerm>),
    /// Blurred along the columns by kernel `i`.
    Columns(u32, Box<BlurTerm>),
}

/// What the buffers hold after the command.
pub open spec fn blur_apply(m: Map<BlurBuffer, BlurTerm>, c: BlurCommand) -> Map<
    BlurBuffer,
    BlurTerm,
> {
    let x = m[c.source()];
    let value = match c {
        BlurCommand::Horizontal(i) => BlurTerm::Rows(i, Box::new(x)),
        BlurCommand::Vertical(i) => BlurTerm::Columns(i, Box::new(x)),
        BlurCommand::Copy(_) => x,
    };
    m.insert(c.target(), value)
}

/// What the buffers hold after the first `k` commands.
pub open spec fn blur_run(
    m: Map<BlurBuffer, BlurTerm>,
    commands: Seq<BlurCommand>,
    k: nat,
) -> Map<BlurBuffer, BlurTerm>
    decreases k,
{
    if k == 0 {
        m
    } else {
        blur_apply(blur_run(m, commands, (k - 1) as nat), commands[k - 1])
    }
}

/// What the buffers hold after all the commands for `n` kernels.
pub open spec fn blur_after(m: Map<BlurBuffer, BlurTerm>, n: nat) -> Map<BlurBuffer, BlurTerm> {
    blur_run(m, blur_commands(n), blur_commands(n).len())
}

proof fn lemma_blur_run_prefix(
    m: Map<BlurBuffer, BlurTerm>,
    s: Seq<BlurCommand>,
    t: Seq<BlurCommand>,
    k: nat,
)
    requires
        k <= s.len(),
    ensures
        blur_run(m, s + t, k) == blur_run(m, s, k),
    decreases k,
{
    if k > 0 {
        lemma_blur_run_prefix(m, s, t, (k - 1) as nat);
        assert((s + t)[k - 1] == s[k - 1]);
    }
}

/// Every readback holds the uploaded image blurred by its own kernel, along
/// the rows and then along the columns: no blur disturbs the input of the
/// next.
pub proof fn lemma_blur_multi(m: Map<BlurBuffer, BlurTerm>, n: nat)
    requires
        n <= u32::MAX,
    ensures
        blur_after(m, n)[BlurBuffer::Input] == m[BlurBuffer::Input],
        forall|i: u32|
            i < n ==> #[trigger] blur_after(m, n)[BlurBuffer::Readback(i)] == BlurTerm::Columns(
                i,
                Box::new(BlurTerm::Rows(i, Box::new(m[BlurBuffer::Input]))),
            ),
    decreases n,
{
    if n > 0 {
        lemma_blur_multi(m, (n - 1) as nat);
        let i = (n - 1) as u32;
        let head = blur_commands((n - 1) as nat);
        let last = seq![
            BlurCommand::Horizontal(i),
            BlurCommand::Vertical(i),
            BlurCommand::Copy(i),
        ];
        let l = head.len();
        lemma_blur_run_prefix(m, head, last, l);
        let m0 = blur_run(m, head, l);
        let m1 = blur_apply(m0, BlurCommand::Horizontal(i));
        let m2 = blur_apply(m1, BlurCommand::Vertical(i));
        let m3 = blur_apply(m2, BlurCommand::Copy(i));
        let all = head + last;
        assert(all[l as int] == last[0] && all[l as int + 1] == last[1] && all[l as int + 2] == last[2]);
        assert(blur_run(m, all, l + 1) == m1);
        assert(blur_run(m, all, l + 2) == m2);
        assert(blur_run(m, all, l + 3) == m3);
        assert(blur_after(m, n) == m3);
    }
}

} // verus!
