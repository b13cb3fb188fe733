//! Fuzz inputs, their coverage, and the corpus that holds them.

use vstd::prelude::*;
use crate::text::{hex_fixed, push_hex_fixed, str_equal};

verus! {

/// What a run of an input covered: four counters, the first of them a size
/// bias that favours short inputs.
#[derive(Clone, Copy, Debug)]
pub struct FuzzCov {
    pub counters: [u64; 4],
}

/// The larger of two counters.
pub open spec fn max_counter(a: u64, b: u64) -> u64 {
    if a >= b {
        a
    } else {
        b
    }
}

impl FuzzCov {
    /// The counters, one by one.
    pub open spec fn view(&self) -> Seq<u64> {
        self.counters@
    }

    /// All counters zero.
    pub fn new() -> (cov: FuzzCov)
        ensures
            cov@ == seq![0u64, 0u64, 0u64, 0u64],
    {
        let cov = FuzzCov { counters: [0, 0, 0, 0] };
        assert(cov@ =~= seq![0u64, 0u64, 0u64, 0u64]);
        cov
    }

    /// The counters.
    pub fn bytes(&self) -> (counters: [u64; 4])
        ensures
            counters@ == self@,
    {
        self.counters
    }

    /// This coverage is at least `max` in every counter and more in one.
    pub open spec fn spec_is_gain(&self, max: &FuzzCov) -> bool {
        &&& forall|i: int| 0 <= i < 4 ==> self@[i] >= max@[i]
        &&& exists|i: int| 0 <= i < 4 && self@[i] > max@[i]
    }

    /// Whether this coverage is a gain over `max`: more in at least one
    /// counter and less in none.
    #[verifier::when_used_as_spec(spec_is_gain)]
    pub fn is_gain(&self, max: &FuzzCov) -> (r: bool)
        ensures
            r == self.spec_is_gain(max),
    {
        let a = &self.counters;
        let b = &max.counters;
        if a[0] < b[0] || a[1] < b[1] || a[2] < b[2] || a[3] < b[3] {
            return false;
        }
        let r = a[0] > b[0] || a[1] > b[1] || a[2] > b[2] || a[3] > b[3];
        proof {
            if r {
                let i: int = if a[0] > b[0] {
                    0
                } else if a[1] > b[1] {
                    1
                } else if a[2] > b[2] {
                    2
                } else {
                    3
                };
                assert(0 <= i < 4 && self@[i] > max@[i]);
            }
        }
        r
    }

    /// The upper envelope of this coverage and `other`: in every counter the
    /// larger of the two.
    pub fn compute_local_max(&self, other: &FuzzCov) -> (max: FuzzCov)
        ensures
            forall|i: int| 0 <= i < 4 ==> max@[i] == max_counter(self@[i], other@[i]),
    {
        let a = &self.counters;
        let b = &other.counters;
        FuzzCov {
            counters: [
                if a[0] >= b[0] {
                    a[0]
                } else {
                    b[0]
                },
                if a[1] >= b[1] {
                    a[1]
                } else {
                    b[1]
                },
                if a[2] >= b[2] {
                    a[2]
                } else {
                    b[2]
                },
                if a[3] >= b[3] {
                    a[3]
                } else {
                    b[3]
                },
            ],
        }
    }
}

/// The largest `k` with `2^k <= n`; 0 for `n == 0`.
pub open spec fn log2_floor(n: int) -> int
    decreases n,
{
    if n <= 1 {
        0
    } else {
        1 + log2_floor(n / 2)
    }
}

/// The logarithm grows with its argument.
pub proof fn lemma_log2_monotone(a: int, b: int)
    requires
        a <= b,
    ensures
        log2_floor(a) <= log2_floor(b),
        0 <= log2_floor(a),
    decreases b,
{
    if b > 1 {
        lemma_log2_monotone(a / 2, b / 2);
    }
    if a > 1 {
        lemma_log2_monotone(a / 2, a / 2);
    }
}

/// The logarithm of a machine word is below 64.
pub proof fn lemma_log2_bound(n: int, bits: int)
    requires
        0 <= bits,
        n < vstd::arithmetic::power2::pow2(bits as nat),
    ensures
        log2_floor(n) <= bits,
    decreases bits,
{
    vstd::arithmetic::power2::lemma2_to64();
    if n > 1 {
        if bits == 0 {
        } else {
            vstd::arithmetic::power2::lemma_pow2_unfold(bits as nat);
            lemma_log2_bound(n / 2, bits - 1);
        }
    }
}

/// The largest `k` with `2^k <= n`; 0 for `n == 0`.
pub fn log2(n: usize) -> (k: u32)
    ensures
        k == log2_floor(n as int),
        k < 64,
{
    let mut k: u32 = 0;
    let mut rest: usize = n;
    proof {
        vstd::arithmetic::power2::lemma2_to64();
        lemma_log2_bound(n as int, 64);
        lemma_log2_monotone(0, n as int);
    }
    while rest > 1
        invariant
            k + log2_floor(rest as int) == log2_floor(n as int),
            log2_floor(n as int) <= 64,
            0 <= log2_floor(rest as int),
        decreases rest,
    {
        proof {
            lemma_log2_monotone(0, rest as int / 2);
        }
        rest = rest / 2;
        k = k + 1;
    }
    proof {
        if n >= 1 {
            lemma_log2_bound(n as int, 64);
            lemma_log2_strict(n as int);
        }
    }
    k
}

/// The logarithm of a number below `2^64` is below 64.
pub proof fn lemma_log2_strict(n: int)
    requires
        n <= usize::MAX,
    ensures
        log2_floor(n) < 64,
{
    vstd::arithmetic::power2::lemma2_to64();
    vstd::arithmetic::power2::lemma2_to64_rest();
    if n >= 0 {
        assert(n < vstd::arithmetic::power2::pow2(64)) by {
            assert(usize::MAX < 0x1_0000_0000_0000_0000);
        }
        lemma_log2_half_bound(n, 64);
    } else {
    }
}

/// A number below `2^bits`, `bits > 0`, has a logarithm below `bits`.
pub proof fn lemma_log2_half_bound(n: int, bits: int)
    requires
        1 <= bits,
        n < vstd::arithmetic::power2::pow2(bits as nat),
    ensures
        log2_floor(n) < bits,
    decreases bits,
{
    vstd::arithmetic::power2::lemma2_to64();
    if n > 1 {
        vstd::arithmetic::power2::lemma_pow2_unfold(bits as nat);
        if bits == 1 {
        } else {
            lemma_log2_half_bound(n / 2, bits - 1);
        }
    }
}

/// The first value of the content hash.
pub const HASH_BASIS: u64 = 0xcbf2_9ce4_8422_2325;

/// The factor of the content hash.
pub const HASH_PRIME: u64 = 0x100_0000_01b3;

/// The hash of `data`: from `HASH_BASIS`, for each byte in order, the hash
/// so far is combined with the byte by exclusive or and multiplied by
/// `HASH_PRIME`, the product cut to 64 bits.
pub open spec fn content_hash(data: Seq<u8>) -> u64
    decreases data.len(),
{
    if data.len() == 0 {
        HASH_BASIS
    } else {
        (content_hash(data.drop_last()) ^ (data.last() as u64)).wrapping_mul(HASH_PRIME)
    }
}

/// The name of an input with content `data`: the sixteen hexadecimal digits
/// of its hash, a dot, the eight last hexadecimal digits of its length, and
/// the ending `.cov`.
pub open spec fn content_name(data: Seq<u8>) -> Seq<char> {
    hex_fixed(content_hash(data) as int, 16) + "."@ + hex_fixed(data.len() as int, 8) + ".cov"@
}

/// One test case of the fuzzer.
pub struct FuzzInput {
    /// The bytes that the target is given.
    pub data: Vec<u8>,
    /// What its run covered.
    pub cov: FuzzCov,
    /// The number that it got when it joined the corpus.
    pub idx: usize,
    /// How long its last run took, in microseconds.
    pub exec_usec: usize,
    /// How often it was picked since.
    pub refs: usize,
    /// Its name, in the corpus and on disk.
    pub filename: String,
}

/// What a fuzz input holds.
pub ghost struct FuzzInputView {
    pub data: Seq<u8>,
    pub cov: Seq<u64>,
    pub idx: usize,
    pub exec_usec: usize,
    pub refs: usize,
    pub filename: Seq<char>,
}

impl View for FuzzInput {
    type V = FuzzInputView;

    open spec fn view(&self) -> FuzzInputView {
        FuzzInputView {
            data: self.data@,
            cov: self.cov@,
            idx: self.idx,
            exec_usec: self.exec_usec,
            refs: self.refs,
            filename: self.filename@,
        }
    }
}

impl FuzzInput {
    /// An empty input with no coverage and no name.
    pub open spec fn spec_new() -> FuzzInputView {
        FuzzInputView {
            data: Seq::empty(),
            cov: seq![0u64, 0u64, 0u64, 0u64],
            idx: 0,
            exec_usec: 0,
            refs: 0,
            filename: Seq::empty(),
        }
    }

    /// An empty input with no coverage and no name.
    pub fn new() -> (input: FuzzInput)
        ensures
            input@ == FuzzInput::spec_new(),
    {
        FuzzInput {
            data: Vec::new(),
            cov: FuzzCov::new(),
            idx: 0,
            exec_usec: 0,
            refs: 0,
            filename: String::new(),
        }
    }

    /// The hash of the input's bytes.
    pub fn hash(&self) -> (h: u64)
        ensures
            h == content_hash(self.data@),
    {
        let mut h: u64 = HASH_BASIS;
        let mut i: usize = 0;
        while i < self.data.len()
            invariant
                i <= self.data@.len(),
                h == content_hash(self.data@.subrange(0, i as int)),
            decreases self.data@.len() - i,
        {
            proof {
                assert(self.data@.subrange(0, i + 1).drop_last() =~= self.data@.subrange(
                    0,
                    i as int,
                ));
            }
            h = (h ^ (self.data[i] as u64)).wrapping_mul(HASH_PRIME);
            i = i + 1;
        }
        assert(self.data@.subrange(0, i as int) =~= self.data@);
        h
    }

    /// The name that the input's bytes give it: equal bytes, equal names.
    pub fn generate_filename(&self) -> (name: String)
        ensures
            name@ == content_name(self.data@),
    {
        let mut name = String::new();
        push_hex_fixed(&mut name, self.hash(), 16);
        name.append(".");
        push_hex_fixed(&mut name, self.data.len() as u64, 8);
        name.append(".cov");
        assert(name@ =~= content_name(self.data@));
        name
    }

    /// A copy of the input for the corpus, with its run time.
    pub fn fork(&self, exec_usec: usize) -> (input: FuzzInput)
        ensures
            input@ == (FuzzInputView { exec_usec, ..self@ }),
    {
        FuzzInput {
            data: self.data.clone(),
            cov: self.cov,
            idx: self.idx,
            exec_usec,
            refs: self.refs,
            filename: self.filename.clone(),
        }
    }
}

/// The inputs that the fuzzer mutates, in the order in which they came, each
/// under a name of its own.
pub struct Corpus {
    pub files: Vec<FuzzInput>,
}

/// Whether one of `files` is called `name`.
pub open spec fn has_name(files: Seq<FuzzInputView>, name: Seq<char>) -> bool {
    exists|i: int| 0 <= i < files.len() && #[trigger] files[i].filename == name
}

/// The inputs `files` after `input` was added with the `count` of inputs as
/// its number, and the count after: nothing changes where one of `files`
/// has its name.
pub open spec fn with_file(files: Seq<FuzzInputView>, count: int, input: FuzzInputView) -> (
    Seq<FuzzInputView>,
    int,
) {
    if has_name(files, input.filename) {
        (files, count)
    } else {
        (files.push(FuzzInputView { idx: count as usize, ..input }), count + 1)
    }
}

/// No two of `files` have the same name.
pub open spec fn distinct_names(files: Seq<FuzzInputView>) -> bool {
    forall|i: int, j: int|
        0 <= i < j < files.len() ==> (#[trigger] files[i]).filename != (#[trigger] files[j]).filename
}

/// Adding an input a second time changes nothing: after the first time the
/// corpus has one input of its name, and one only, and the count of inputs
/// has grown by one at most.
pub proof fn lemma_add_file_twice(files: Seq<FuzzInputView>, count: int, input: FuzzInputView)
    requires
        distinct_names(files),
    ensures
        with_file(with_file(files, count, input).0, with_file(files, count, input).1, input)
            == with_file(files, count, input),
        distinct_names(with_file(files, count, input).0),
        has_name(with_file(files, count, input).0, input.filename),
        !has_name(files, input.filename) ==> with_file(files, count, input).1 == count + 1,
        forall|i: int, j: int|
            0 <= i < with_file(files, count, input).0.len() && 0 <= j < with_file(
                files,
                count,
                input,
            ).0.len() && with_file(files, count, input).0[i].filename == input.filename
                && with_file(files, count, input).0[j].filename == input.filename ==> i == j,
{
    let once = with_file(files, count, input).0;
    if !has_name(files, input.filename) {
        assert(once[files.len() as int].filename == input.filename);
        assert forall|i: int, j: int| 0 <= i < j < once.len() implies (#[trigger] once[i]).filename
            != (#[trigger] once[j]).filename by {
            if j == files.len() {
                assert(files[i].filename != input.filename);
            } else {
                assert(files[i].filename != files[j].filename);
            }
        }
    }
    assert forall|i: int, j: int|
        0 <= i < once.len() && 0 <= j < once.len() && once[i].filename == input.filename
            && once[j].filename == input.filename implies i == j by {
        if i < j {
            assert(once[i].filename != once[j].filename);
        } else if j < i {
            assert(once[j].filename != once[i].filename);
        }
    }
}

impl View for Corpus {
    type V = Seq<FuzzInputView>;

    /// What the inputs hold, in order.
    open spec fn view(&self) -> Seq<FuzzInputView> {
        Seq::new(self.files@.len(), |i: int| self.files@[i]@)
    }
}

impl Corpus {
    /// No two inputs have the same name.
    pub open spec fn wf(&self) -> bool {
        distinct_names(self@)
    }

    /// Where the input with this name is: the first place with the name, or
    /// the number of inputs where there is none.
    pub open spec fn position(&self, name: Seq<char>) -> int {
        if has_name(self@, name) {
            choose|i: int|
                0 <= i < self@.len() && self@[i].filename == name && forall|k: int|
                    0 <= k < i ==> (#[trigger] self@[k]).filename != name
        } else {
            self@.len() as int
        }
    }

    /// An empty corpus.
    pub fn new() -> (corpus: Corpus)
        ensures
            corpus@ == Seq::<FuzzInputView>::empty(),
            corpus.wf(),
    {
        let corpus = Corpus { files: Vec::new() };
        assert(corpus@ =~= Seq::<FuzzInputView>::empty());
        corpus
    }

    /// Number of inputs.
    pub fn len(&self) -> (n: usize)
        ensures
            n == self@.len(),
    {
        self.files.len()
    }

    /// Where the input called `name` is, or the number of inputs where there
    /// is none.
    pub fn find(&self, name: &str) -> (r: usize)
        ensures
            r == self.position(name@),
            r <= self@.len(),
            r < self@.len() <==> has_name(self@, name@),
            r < self@.len() ==> self@[r as int].filename == name@,
            forall|k: int| 0 <= k < r ==> (#[trigger] self@[k]).filename != name@,
    {
        let mut i: usize = 0;
        while i < self.files.len()
            invariant
                i <= self.files@.len(),
                forall|k: int| 0 <= k < i ==> (#[trigger] self@[k]).filename != name@,
            decreases self.files@.len() - i,
        {
            if str_equal(self.files[i].filename.as_str(), name) {
                proof {
                    assert(self@[i as int].filename == name@);
                    assert(has_name(self@, name@));
                    let c = self.position(name@);
                    assert(c == i) by {
                        if c < i {
                            assert(self@[c].filename != name@);
                        } else if c > i {
                            assert(self@[i as int].filename != name@);
                        }
                    }
                }
                return i;
            }
            i = i + 1;
        }
        i
    }

    /// Whether an input called `name` is in the corpus.
    pub fn contains(&self, name: &str) -> (r: bool)
        ensures
            r == has_name(self@, name@),
    {
        self.find(name) < self.files.len()
    }

    /// Adds `input` under its name, with the count of inputs as its number,
    /// and counts it; does nothing where an input of that name is in the
    /// corpus. Returns whether it was added.
    pub fn add_file(&mut self, input: FuzzInput, fuzz_input_count: &mut usize) -> (added: bool)
        requires
            *old(fuzz_input_count) < usize::MAX,
        ensures
            added == !has_name(old(self)@, input@.filename),
            (final(self)@, *final(fuzz_input_count) as int) == with_file(
                old(self)@,
                *old(fuzz_input_count) as int,
                input@,
            ),
            old(self).wf() ==> final(self).wf(),
    {
        if self.contains(input.filename.as_str()) {
            return false;
        }
        let ghost before = self@;
        let ghost given = input@;
        let mut input = input;
        input.idx = *fuzz_input_count;
        *fuzz_input_count = *fuzz_input_count + 1;
        self.files.push(input);
        proof {
            assert(self@ =~= before.push(
                FuzzInputView { idx: *old(fuzz_input_count), ..given },
            ));
            if old(self).wf() {
                lemma_add_file_twice(before, *old(fuzz_input_count) as int, given);
            }
        }
        true
    }

    /// Where iteration goes on after the input called `name`: the place
    /// just after it, or nowhere (the number of inputs) where there is no
    /// such input or it is the last.
    pub fn iter_from(&self, name: &str) -> (r: usize)
        ensures
            r == (if has_name(self@, name@) {
                self.position(name@) + 1
            } else {
                self@.len() as int
            }),
            r <= self@.len(),
    {
        let at = self.find(name);
        if at < self.files.len() {
            at + 1
        } else {
            at
        }
    }

    /// Where iteration starts: at the first input.
    pub fn iter(&self) -> (r: usize)
        ensures
            r == 0,
    {
        0
    }

    /// The input at place `at`.
    pub fn get(&self, at: usize) -> (r: Option<&FuzzInput>)
        ensures
            at < self@.len() ==> (r matches Some(input) && input@ == self@[at as int]),
            at >= self@.len() ==> r is None,
    {
        if at < self.files.len() {
            Some(&self.files[at])
        } else {
            None
        }
    }
}

} // verus!
