//! The weight container: an 8-byte little-endian header length, a JSON index,
//! then the packed tensor payloads. This module frames and validates the bytes
//! and resolves tensor names to zero-copy views; decoding the JSON text into a
//! `SafeTensorHeader` is left to the caller.
use vstd::prelude::*;
use vstd::slice::slice_subrange;
use vstd::slice::slice_to_vec;
use vstd::utf8::encode_utf8;
use crate::error::ChatLoopError;
use crate::error::Result;
use crate::shape::checked_numel;
use crate::shape::numel;

verus! {

/// Element type tag of a stored tensor.
#[derive(Debug, Clone, Copy, PartialEq, Eq, Structural)]
pub enum TensorDType {
    F32,
    F16,
    I32,
    I8,
    U8,
    BOOL,
}

/// Bytes per element of each element type.
pub open spec fn dtype_size(d: TensorDType) -> nat {
    match d {
        TensorDType::F32 => 4,
        TensorDType::F16 => 2,
        TensorDType::I32 => 4,
        TensorDType::I8 => 1,
        TensorDType::U8 => 1,
        TensorDType::BOOL => 1,
    }
}

/// The tag under which each element type is written in the index.
pub open spec fn dtype_tag(d: TensorDType) -> Seq<char> {
    match d {
        TensorDType::F32 => "F32"@,
        TensorDType::F16 => "F16"@,
        TensorDType::I32 => "I32"@,
        TensorDType::I8 => "I8"@,
        TensorDType::U8 => "U8"@,
        TensorDType::BOOL => "BOOL"@,
    }
}

/// The element type whose tag is `s`, if any.
pub open spec fn dtype_of_tag(s: Seq<char>) -> Option<TensorDType> {
    if s == "F32"@ {
        Some(TensorDType::F32)
    } else if s == "F16"@ {
        Some(TensorDType::F16)
    } else if s == "I32"@ {
        Some(TensorDType::I32)
    } else if s == "I8"@ {
        Some(TensorDType::I8)
    } else if s == "U8"@ {
        Some(TensorDType::U8)
    } else if s == "BOOL"@ {
        Some(TensorDType::BOOL)
    } else {
        None
    }
}

/// Whether two strings hold the same characters.
pub fn str_equals(a: &str, b: &str) -> (r: bool)
    ensures
        r == (a@ == b@),
{
    a.to_owned() == b.to_owned()
}

impl TensorDType {
    /// Size in bytes of one element.
    pub fn size(&self) -> (r: usize)
        ensures
            r == dtype_size(*self),
    {
        match self {
            TensorDType::F32 => 4,
            TensorDType::F16 => 2,
            TensorDType::I32 => 4,
            TensorDType::I8 => 1,
            TensorDType::U8 => 1,
            TensorDType::BOOL => 1,
        }
    }

    /// The element type written as `s`, or `None` for an unknown tag.
    pub fn from_str(s: &str) -> (r: Option<Self>)
        ensures
            r == dtype_of_tag(s@),
    {
        if str_equals(s, "F32") {
            Some(TensorDType::F32)
        } else if str_equals(s, "F16") {
            Some(TensorDType::F16)
        } else if str_equals(s, "I32") {
            Some(TensorDType::I32)
        } else if str_equals(s, "I8") {
            Some(TensorDType::I8)
        } else if str_equals(s, "U8") {
            Some(TensorDType::U8)
        } else if str_equals(s, "BOOL") {
            Some(TensorDType::BOOL)
        } else {
            None
        }
    }

    /// The tag of this element type.
    pub fn as_str(&self) -> (r: &'static str)
        ensures
            r@ == dtype_tag(*self),
    {
        match self {
            TensorDType::F32 => "F32",
            TensorDType::F16 => "F16",
            TensorDType::I32 => "I32",
            TensorDType::I8 => "I8",
            TensorDType::U8 => "U8",
            TensorDType::BOOL => "BOOL",
        }
    }
}

/// Parsing a tag written by `as_str` gives back the element type.
pub proof fn lemma_dtype_tag_round_trip(d: TensorDType)
    ensures
        dtype_of_tag(dtype_tag(d)) == Some(d),
{
    reveal_strlit("F32");
    reveal_strlit("F16");
    reveal_strlit("I32");
    reveal_strlit("I8");
    reveal_strlit("U8");
    reveal_strlit("BOOL");
    let f32_tag = "F32"@;
    let f16_tag = "F16"@;
    let i32_tag = "I32"@;
    let i8_tag = "I8"@;
    let u8_tag = "U8"@;
    let bool_tag = "BOOL"@;
    assert(f16_tag[1] != f32_tag[1]);
    assert(i32_tag[0] != f32_tag[0] && i32_tag[0] != f16_tag[0]);
    assert(i8_tag.len() != f32_tag.len() && i8_tag.len() != f16_tag.len());
    assert(i8_tag.len() != i32_tag.len());
    assert(u8_tag[0] != i8_tag[0] && u8_tag.len() != f32_tag.len());
    assert(u8_tag.len() != f16_tag.len() && u8_tag.len() != i32_tag.len());
    assert(bool_tag.len() != f32_tag.len() && bool_tag.len() != f16_tag.len());
    assert(bool_tag.len() != i32_tag.len() && bool_tag.len() != i8_tag.len());
    assert(bool_tag.len() != u8_tag.len());
}

/// The unsigned integer whose little-endian bytes are `b`.
pub open spec fn le_value(b: Seq<u8>) -> nat
    decreases b.len(),
{
    if b.len() == 0 {
        0
    } else {
        b[0] as nat + 256 * le_value(b.drop_first())
    }
}

/// The `k` little-endian bytes of `n`.
pub open spec fn le_bytes(n: nat, k: nat) -> Seq<u8>
    decreases k,
{
    if k == 0 {
        Seq::empty()
    } else {
        seq![(n % 256) as u8].add(le_bytes(n / 256, (k - 1) as nat))
    }
}

pub open spec fn pow256(k: nat) -> nat
    decreases k,
{
    if k == 0 {
        1
    } else {
        256 * pow256((k - 1) as nat)
    }
}

/// Reading back the little-endian bytes of a number that fits gives the number.
pub proof fn lemma_le_round_trip(n: nat, k: nat)
    requires
        n < pow256(k),
    ensures
        le_bytes(n, k).len() == k,
        le_value(le_bytes(n, k)) == n,
    decreases k,
{
    if k > 0 {
        let q = n / 256;
        assert(q < pow256((k - 1) as nat)) by (nonlinear_arith)
            requires
                n < 256 * pow256((k - 1) as nat),
                q == n / 256,
        ;
        lemma_le_round_trip(q, (k - 1) as nat);
        let b = le_bytes(n, k);
        assert(b.drop_first() =~= le_bytes(q, (k - 1) as nat));
        assert(n == (n % 256) + 256 * q) by (nonlinear_arith)
            requires
                q == n / 256,
        ;
    }
}

/// A value read from `k` bytes stays below `256^k`.
pub proof fn lemma_le_value_bound(b: Seq<u8>)
    ensures
        le_value(b) < pow256(b.len()),
    decreases b.len(),
{
    if b.len() > 0 {
        lemma_le_value_bound(b.drop_first());
        let r = le_value(b.drop_first());
        let p = pow256((b.len() - 1) as nat);
        assert(b[0] as nat + 256 * r < 256 * p) by (nonlinear_arith)
            requires
                r < p,
                b[0] < 256,
        ;
    }
}

/// The header length stored in the first eight bytes of a container.
pub open spec fn stored_header_len(bytes: Seq<u8>) -> nat {
    le_value(bytes.subrange(0, 8))
}

/// A container's framing is sound: it holds the eight length bytes and the whole header.
pub open spec fn framing_ok(bytes: Seq<u8>) -> bool {
    bytes.len() >= 8 && 8 + stored_header_len(bytes) <= bytes.len()
}

/// The unsigned 64-bit integer stored little-endian in the first eight bytes.
pub fn read_u64_le(bytes: &[u8]) -> (r: u64)
    requires
        bytes@.len() >= 8,
    ensures
        r as nat == le_value(bytes@.subrange(0, 8)),
{
    let mut v: u64 = 0;
    let mut i: usize = 8;
    proof {
        assert(bytes@.subrange(8, 8).len() == 0);
    }
    while i > 0
        invariant
            i <= 8,
            bytes@.len() >= 8,
            v as nat == le_value(bytes@.subrange(i as int, 8)),
        decreases i,
    {
        let ghost tail = bytes@.subrange(i as int, 8);
        proof {
            lemma_le_value_bound(tail);
            assert(bytes@.subrange(i - 1, 8).drop_first() =~= tail);
            lemma_pow256_mono((8 - i) as nat, 7);
            reveal_with_fuel(pow256, 8);
            assert(pow256(7) == 0x100_0000_0000_0000);
            assert((v as nat) * 256 + 255 < 0x1_0000_0000_0000_0000) by (nonlinear_arith)
                requires
                    (v as nat) < 0x100_0000_0000_0000,
            ;
        }
        i = i - 1;
        v = v * 256 + bytes[i] as u64;
    }
    v
}

proof fn lemma_pow256_mono(a: nat, b: nat)
    requires
        a <= b,
    ensures
        pow256(a) <= pow256(b),
    decreases b,
{
    if a < b {
        lemma_pow256_mono(a, (b - 1) as nat);
    }
}

/// The header length of a container, after checking that the file holds
/// the eight length bytes and the whole header.
pub fn read_header_len(bytes: &[u8]) -> (r: Result<usize>)
    ensures
        r is Ok <==> framing_ok(bytes@),
        r matches Ok(h) ==> h as nat == stored_header_len(bytes@),
        r matches Err(e) ==> e is MemoryMap,
{
    if bytes.len() < 8 {
        return Err(ChatLoopError::MemoryMap("File too small to contain header".to_owned()));
    }
    let h = read_u64_le(bytes);
    if h > (bytes.len() - 8) as u64 {
        return Err(
            ChatLoopError::MemoryMap("File truncated: header length exceeds file size".to_owned()),
        );
    }
    Ok(h as usize)
}

/// Index entry of one tensor: its element type tag, its shape, and the byte
/// range `[lo, hi)` of its payload, relative to the end of the header.
#[derive(Debug, Clone)]
pub struct TensorInfo {
    pub dtype: String,
    pub shape: Vec<usize>,
    pub data_offsets: Vec<usize>,
}

/// The decoded index of a container, in the order the entries were listed.
#[derive(Debug, Clone)]
pub struct SafeTensorHeader {
    pub tensors: Vec<(String, TensorInfo)>,
}

impl TensorInfo {
    /// The element type named by the entry's tag.
    pub fn get_dtype(&self) -> (r: Option<TensorDType>)
        ensures
            r == dtype_of_tag(self.dtype@),
    {
        TensorDType::from_str(self.dtype.as_str())
    }

    /// Payload size in bytes implied by shape and element type (F32 for an unknown tag).
    pub fn size_bytes(&self) -> (r: usize)
        requires
            numel(self.shape@) * info_elem_size(*self) <= usize::MAX,
        ensures
            r == numel(self.shape@) * info_elem_size(*self),
    {
        let dtype = match self.get_dtype() {
            Some(d) => d,
            None => TensorDType::F32,
        };
        let n = checked_numel(self.shape.as_slice());
        let n = match n {
            Some(n) => n,
            None => {
                proof {
                    assert(numel(self.shape@) <= numel(self.shape@) * info_elem_size(*self))
                        by (nonlinear_arith)
                        requires
                            info_elem_size(*self) >= 1,
                    ;
                }
                0
            },
        };
        n * dtype.size()
    }
}

/// Element size used for an entry, F32's for an unknown tag.
pub open spec fn info_elem_size(info: TensorInfo) -> nat {
    match dtype_of_tag(info.dtype@) {
        Some(d) => dtype_size(d),
        None => 4,
    }
}

/// An index entry agrees with the format, for header length `h` and file length `file_len`:
/// a known tag, two offsets, a range whose length is the element count times the
/// element size, lying within the file.
pub open spec fn entry_ok(info: TensorInfo, h: nat, file_len: nat) -> bool {
    &&& dtype_of_tag(info.dtype@) is Some
    &&& info.data_offsets@.len() == 2
    &&& info.data_offsets@[0] <= info.data_offsets@[1]
    &&& info.data_offsets@[1] - info.data_offsets@[0] == numel(info.shape@) * dtype_size(
        dtype_of_tag(info.dtype@)->Some_0,
    )
    &&& 8 + h + info.data_offsets@[1] <= file_len
}

/// The payload bytes of an entry within the container `bytes` whose header has length `h`.
pub open spec fn payload_of(bytes: Seq<u8>, h: nat, info: TensorInfo) -> Seq<u8> {
    bytes.subrange(8 + h + info.data_offsets@[0], 8 + h + info.data_offsets@[1])
}

/// Index of the first entry named `name`, if any.
pub open spec fn first_named(tensors: Seq<(String, TensorInfo)>, name: Seq<char>) -> Option<int>
    decreases tensors.len(),
{
    if tensors.len() == 0 {
        None
    } else if tensors[0].0@ == name {
        Some(0)
    } else {
        match first_named(tensors.drop_first(), name) {
            Some(i) => Some(i + 1),
            None => None,
        }
    }
}

proof fn lemma_first_named_step(tensors: Seq<(String, TensorInfo)>, name: Seq<char>, i: int)
    requires
        0 <= i < tensors.len(),
        forall|j: int| 0 <= j < i ==> tensors[j].0@ != name,
    ensures
        tensors[i].0@ == name ==> first_named(tensors, name) == Some(i),
    decreases i,
{
    if i > 0 {
        lemma_first_named_step(tensors.drop_first(), name, i - 1);
    }
}

proof fn lemma_first_named_none(tensors: Seq<(String, TensorInfo)>, name: Seq<char>)
    requires
        forall|j: int| 0 <= j < tensors.len() ==> tensors[j].0@ != name,
    ensures
        first_named(tensors, name) is None,
    decreases tensors.len(),
{
    if tensors.len() > 0 {
        assert forall|j: int| 0 <= j < tensors.drop_first().len() implies tensors.drop_first()[j].0@
            != name by {
            assert(tensors.drop_first()[j] == tensors[j + 1]);
        }
        lemma_first_named_none(tensors.drop_first(), name);
    }
}

/// Index of the first entry whose name is encoded by the bytes `name`, if any.
pub open spec fn first_named_bytes(tensors: Seq<(String, TensorInfo)>, name: Seq<u8>) -> Option<int>
    decreases tensors.len(),
{
    if tensors.len() == 0 {
        None
    } else if encode_utf8(tensors[0].0@) == name {
        Some(0)
    } else {
        match first_named_bytes(tensors.drop_first(), name) {
            Some(i) => Some(i + 1),
            None => None,
        }
    }
}

proof fn lemma_first_named_bytes_step(tensors: Seq<(String, TensorInfo)>, name: Seq<u8>, i: int)
    requires
        0 <= i < tensors.len(),
        forall|j: int| 0 <= j < i ==> encode_utf8(#[trigger] tensors[j].0@) != name,
        encode_utf8(tensors[i].0@) == name,
    ensures
        first_named_bytes(tensors, name) == Some(i),
    decreases i,
{
    if i > 0 {
        assert forall|j: int| 0 <= j < i - 1 implies encode_utf8(#[trigger] tensors.drop_first()[j].0@)
            != name by {
            assert(tensors.drop_first()[j] == tensors[j + 1]);
        }
        lemma_first_named_bytes_step(tensors.drop_first(), name, i - 1);
    }
}

proof fn lemma_first_named_bytes_none(tensors: Seq<(String, TensorInfo)>, name: Seq<u8>)
    requires
        forall|j: int| 0 <= j < tensors.len() ==> encode_utf8(#[trigger] tensors[j].0@) != name,
    ensures
        first_named_bytes(tensors, name) is None,
    decreases tensors.len(),
{
    if tensors.len() > 0 {
        assert forall|j: int| 0 <= j < tensors.drop_first().len() implies encode_utf8(
            #[trigger] tensors.drop_first()[j].0@,
        ) != name by {
            assert(tensors.drop_first()[j] == tensors[j + 1]);
        }
        lemma_first_named_bytes_none(tensors.drop_first(), name);
    }
}

/// Whether two lists of dimensions are equal.
pub fn usize_slices_equal(a: &[usize], b: &[usize]) -> (r: bool)
    ensures
        r == (a@ == b@),
{
    if a.len() != b.len() {
        return false;
    }
    let mut i: usize = 0;
    while i < a.len()
        invariant
            a@.len() == b@.len(),
            i <= a@.len(),
            forall|j: int| 0 <= j < i ==> a@[j] == b@[j],
        decreases a@.len() - i,
    {
        if a[i] != b[i] {
            return false;
        }
        i = i + 1;
    }
    proof {
        assert(a@ =~= b@);
    }
    true
}

/// Whether two byte strings are equal.
pub fn bytes_equal(a: &[u8], b: &[u8]) -> (r: bool)
    ensures
        r == (a@ == b@),
{
    if a.len() != b.len() {
        return false;
    }
    let mut i: usize = 0;
    while i < a.len()
        invariant
            a@.len() == b@.len(),
            i <= a@.len(),
            forall|j: int| 0 <= j < i ==> a@[j] == b@[j],
        decreases a@.len() - i,
    {
        if a[i] != b[i] {
            return false;
        }
        i = i + 1;
    }
    proof {
        assert(a@ =~= b@);
    }
    true
}

/// No two index entries share a name.
pub open spec fn names_unique(tensors: Seq<(String, TensorInfo)>) -> bool {
    forall|i: int, j: int|
        0 <= i < j < tensors.len() ==> (#[trigger] tensors[i]).0@ != (#[trigger] tensors[j]).0@
}

fn names_distinct(tensors: &Vec<(String, TensorInfo)>) -> (r: bool)
    ensures
        r == names_unique(tensors@),
{
    let n = tensors.len();
    let mut i: usize = 0;
    while i < n
        invariant
            n == tensors@.len(),
            i <= n,
            forall|a: int, b: int| 0 <= a < i && a < b < n ==> (#[trigger] tensors@[a]).0@ != (#[trigger] tensors@[b]).0@,
        decreases n - i,
    {
        let mut j: usize = i + 1;
        while j < n
            invariant
                n == tensors@.len(),
                i < n,
                i + 1 <= j <= n,
                forall|a: int, b: int| 0 <= a < i && a < b < n ==> (#[trigger] tensors@[a]).0@ != (#[trigger] tensors@[b]).0@,
                forall|b: int| i < b < j ==> tensors@[i as int].0@ != (#[trigger] tensors@[b]).0@,
            decreases n - j,
        {
            if str_equals(tensors[i].0.as_str(), tensors[j].0.as_str()) {
                return false;
            }
            j = j + 1;
        }
        i = i + 1;
    }
    true
}

/// A read-only container held in memory (typically a mapped file): its bytes and
/// its validated index.
pub struct SafeTensorBuffer<'a> {
    bytes: &'a [u8],
    header: SafeTensorHeader,
    header_len: usize,
}

/// A zero-copy view of one tensor's payload, with its shape and element type.
pub struct SafeTensorView<'a> {
    data: &'a [u8],
    shape: Vec<usize>,
    dtype: TensorDType,
}

impl<'a> SafeTensorBuffer<'a> {
    #[verifier::type_invariant]
    spec fn inv(self) -> bool {
        &&& framing_ok(self.bytes@)
        &&& self.header_len == stored_header_len(self.bytes@)
        &&& names_unique(self.header.tensors@)
        &&& forall|i: int|
            0 <= i < self.header.tensors@.len() ==> entry_ok(
                #[trigger] self.header.tensors@[i].1,
                self.header_len as nat,
                self.bytes@.len(),
            )
    }

    /// The container's bytes.
    pub closed spec fn file_bytes(self) -> Seq<u8> {
        self.bytes@
    }

    /// The container's index entries.
    pub closed spec fn entries(self) -> Seq<(String, TensorInfo)> {
        self.header.tensors@
    }

    /// Validate a container whose index, read from its header bytes, is `header`.
    /// The framing must hold, every entry must agree with the format and no name
    /// may occur twice; any failure is a `MemoryMap` error.
    pub fn open(bytes: &'a [u8], header: SafeTensorHeader) -> (r: Result<Self>)
        ensures
            r is Ok <==> framing_ok(bytes@) && names_unique(header.tensors@) && forall|i: int|
                0 <= i < header.tensors@.len() ==> entry_ok(
                    #[trigger] header.tensors@[i].1,
                    stored_header_len(bytes@),
                    bytes@.len(),
                ),
            r matches Ok(b) ==> b.file_bytes() == bytes@ && b.entries() == header.tensors@,
            r matches Err(e) ==> e is MemoryMap,
    {
        let h = match read_header_len(bytes) {
            Ok(h) => h,
            Err(e) => {
                return Err(e);
            },
        };
        let n = header.tensors.len();
        let mut i: usize = 0;
        while i < n
            invariant
                n == header.tensors@.len(),
                i <= n,
                framing_ok(bytes@),
                h == stored_header_len(bytes@),
                forall|j: int|
                    0 <= j < i ==> entry_ok(
                        #[trigger] header.tensors@[j].1,
                        h as nat,
                        bytes@.len(),
                    ),
            decreases n - i,
        {
            if !check_entry(&header.tensors[i].1, h, bytes.len()) {
                return Err(
                    ChatLoopError::MemoryMap(
                        "Tensor entry is inconsistent with the container".to_owned(),
                    ),
                );
            }
            i = i + 1;
        }
        if !names_distinct(&header.tensors) {
            return Err(ChatLoopError::MemoryMap("Tensor name listed twice in the index".to_owned()));
        }
        Ok(SafeTensorBuffer { bytes, header, header_len: h })
    }

    /// The decoded index.
    pub fn header(&self) -> (r: &SafeTensorHeader)
        ensures
            r.tensors@ == self.entries(),
    {
        &self.header
    }

    /// The names of all tensors, in index order.
    pub fn tensor_names(&self) -> (r: Vec<String>)
        ensures
            r@.len() == self.entries().len(),
            forall|i: int| 0 <= i < r@.len() ==> r@[i]@ == self.entries()[i].0@,
    {
        let mut out: Vec<String> = Vec::new();
        let n = self.header.tensors.len();
        let mut i: usize = 0;
        while i < n
            invariant
                n == self.entries().len(),
                i <= n,
                out@.len() == i,
                forall|j: int| 0 <= j < i ==> out@[j]@ == self.entries()[j].0@,
            decreases n - i,
        {
            out.push(self.header.tensors[i].0.clone());
            i = i + 1;
        }
        out
    }

    /// A zero-copy view of the first tensor named `name`, or `None` if no entry has that name.
    pub fn get_tensor(&self, name: &str) -> (r: Option<SafeTensorView<'a>>)
        ensures
            match first_named(self.entries(), name@) {
                None => r is None,
                Some(i) => r matches Some(v) && v.view_data() == payload_of(
                    self.file_bytes(),
                    stored_header_len(self.file_bytes()),
                    self.entries()[i].1,
                ) && v.view_shape() == self.entries()[i].1.shape@ && Some(v.view_dtype())
                    == dtype_of_tag(self.entries()[i].1.dtype@),
            },
    {
        proof {
            use_type_invariant(self);
        }
        let _ = self.bytes.len();
        let n = self.header.tensors.len();
        let mut i: usize = 0;
        while i < n
            invariant
                n == self.entries().len(),
                i <= n,
                forall|j: int| 0 <= j < i ==> self.entries()[j].0@ != name@,
                framing_ok(self.bytes@),
                self.bytes@.len() <= usize::MAX,
                self.header_len == stored_header_len(self.bytes@),
                forall|j: int|
                    0 <= j < self.header.tensors@.len() ==> entry_ok(
                        #[trigger] self.header.tensors@[j].1,
                        self.header_len as nat,
                        self.bytes@.len(),
                    ),
            decreases n - i,
        {
            let entry = &self.header.tensors[i];
            let found = str_equals(entry.0.as_str(), name);
            proof {
                lemma_first_named_step(self.entries(), name@, i as int);
            }
            if found {
                let info = &entry.1;
                assert(entry_ok(self.header.tensors@[i as int].1, self.header_len as nat, self.bytes@.len()));
                let lo = 8 + self.header_len + info.data_offsets[0];
                let hi = 8 + self.header_len + info.data_offsets[1];
                let dtype = match info.get_dtype() {
                    Some(d) => d,
                    None => TensorDType::F32,
                };
                let data = slice_subrange(self.bytes, lo, hi);
                let view = SafeTensorView { data, shape: slice_to_vec(info.shape.as_slice()), dtype };
                return Some(view);
            }
            i = i + 1;
        }
        proof {
            lemma_first_named_none(self.entries(), name@);
        }
        None
    }
}

/// `v` is the view of the first tensor of `buf` whose name is encoded by `name`.
pub open spec fn view_of<'a>(buf: SafeTensorBuffer<'a>, name: Seq<u8>, v: SafeTensorView<'a>) -> bool {
    match first_named_bytes(buf.entries(), name) {
        None => false,
        Some(i) => v.view_data() == payload_of(
            buf.file_bytes(),
            stored_header_len(buf.file_bytes()),
            buf.entries()[i].1,
        ) && v.view_shape() == buf.entries()[i].1.shape@ && Some(v.view_dtype()) == dtype_of_tag(
            buf.entries()[i].1.dtype@,
        ),
    }
}

impl<'a> SafeTensorBuffer<'a> {
    /// Length of the container in bytes.
    pub fn file_len(&self) -> (r: usize)
        ensures
            r == self.file_bytes().len(),
    {
        self.bytes.len()
    }

    /// Views of the tensors named in `names` that resolve, each with its name, in
    /// the order of `names`.
    pub fn get_tensors(&self, names: &[&str]) -> (r: Vec<(String, SafeTensorView<'a>)>)
        ensures
            r@.map_values(|p: (String, SafeTensorView<'a>)| p.0@) == names@.map_values(
                |n: &str| n@,
            ).filter(|c: Seq<char>| first_named_bytes(self.entries(), encode_utf8(c)) is Some),
            forall|k: int|
                0 <= k < r@.len() ==> view_of(*self, encode_utf8((#[trigger] r@[k]).0@), r@[k].1),
    {
        let ghost pred = |c: Seq<char>| first_named_bytes(self.entries(), encode_utf8(c)) is Some;
        let mut out: Vec<(String, SafeTensorView<'a>)> = Vec::new();
        let mut i: usize = 0;
        while i < names.len()
            invariant
                i <= names@.len(),
                pred == (|c: Seq<char>| first_named_bytes(self.entries(), encode_utf8(c)) is Some),
                out@.map_values(|p: (String, SafeTensorView<'a>)| p.0@) == names@.subrange(
                    0,
                    i as int,
                ).map_values(|n: &str| n@).filter(pred),
                forall|k: int|
                    0 <= k < out@.len() ==> view_of(*self, encode_utf8((#[trigger] out@[k]).0@), out@[k].1),
            decreases names@.len() - i,
        {
            let name: &str = names[i];
            let found = self.get_tensor_bytes(name.as_bytes());
            let ghost prev = out@;
            let ghost pre = names@.subrange(0, i as int).map_values(|n: &str| n@);
            let ghost next = names@.subrange(0, i + 1).map_values(|n: &str| n@);
            proof {
                assert(next.drop_last() =~= pre);
                assert(next.last() == name@);
                reveal(Seq::filter);
            }
            match found {
                Some(v) => {
                    out.push((name.to_owned(), v));
                    proof {
                        assert(out@.map_values(|p: (String, SafeTensorView<'a>)| p.0@) =~= prev.map_values(
                            |p: (String, SafeTensorView<'a>)| p.0@,
                        ).push(name@));
                    }
                },
                None => {},
            }
            i = i + 1;
        }
        proof {
            assert(names@.subrange(0, names@.len() as int) =~= names@);
        }
        out
    }

    /// A zero-copy view of the first tensor whose name is encoded by the bytes
    /// `name`, or `None` if no entry has that name.
    pub fn get_tensor_bytes(&self, name: &[u8]) -> (r: Option<SafeTensorView<'a>>)
        ensures
            r is Some <==> first_named_bytes(self.entries(), name@) is Some,
            r matches Some(v) ==> view_of(*self, name@, v),
    {
        proof {
            use_type_invariant(self);
        }
        let _ = self.bytes.len();
        let n = self.header.tensors.len();
        let mut i: usize = 0;
        while i < n
            invariant
                n == self.entries().len(),
                i <= n,
                forall|j: int| 0 <= j < i ==> encode_utf8(#[trigger] self.entries()[j].0@) != name@,
                framing_ok(self.bytes@),
                self.bytes@.len() <= usize::MAX,
                self.header_len == stored_header_len(self.bytes@),
                forall|j: int|
                    0 <= j < self.header.tensors@.len() ==> entry_ok(
                        #[trigger] self.header.tensors@[j].1,
                        self.header_len as nat,
                        self.bytes@.len(),
                    ),
            decreases n - i,
        {
            let entry = &self.header.tensors[i];
            let found = bytes_equal(entry.0.as_str().as_bytes(), name);
            if found {
                proof {
                    lemma_first_named_bytes_step(self.entries(), name@, i as int);
                }
                let info = &entry.1;
                assert(entry_ok(self.header.tensors@[i as int].1, self.header_len as nat, self.bytes@.len()));
                let lo = 8 + self.header_len + info.data_offsets[0];
                let hi = 8 + self.header_len + info.data_offsets[1];
                let dtype = match info.get_dtype() {
                    Some(d) => d,
                    None => TensorDType::F32,
                };
                let data = slice_subrange(self.bytes, lo, hi);
                let view = SafeTensorView { data, shape: slice_to_vec(info.shape.as_slice()), dtype };
                return Some(view);
            }
            i = i + 1;
        }
        proof {
            lemma_first_named_bytes_none(self.entries(), name@);
        }
        None
    }
}

impl<'a> SafeTensorView<'a> {
    #[verifier::type_invariant]
    spec fn inv(self) -> bool {
        numel(self.shape@) * dtype_size(self.dtype) == self.data@.len()
    }

    /// The payload bytes.
    pub closed spec fn view_data(self) -> Seq<u8> {
        self.data@
    }

    /// The dimensions.
    pub closed spec fn view_shape(self) -> Seq<usize> {
        self.shape@
    }

    /// The element type.
    pub closed spec fn view_dtype(self) -> TensorDType {
        self.dtype
    }

    /// The tensor's shape.
    pub fn shape(&self) -> (r: &[usize])
        ensures
            r@ == self.view_shape(),
    {
        self.shape.as_slice()
    }

    /// The tensor's element type.
    pub fn dtype(&self) -> (r: TensorDType)
        ensures
            r == self.view_dtype(),
    {
        self.dtype
    }

    /// The raw little-endian payload bytes.
    pub fn data(&self) -> (r: &'a [u8])
        ensures
            r@ == self.view_data(),
    {
        self.data
    }

    /// Number of elements: the product of the dimensions.
    pub fn len(&self) -> (r: usize)
        ensures
            r == numel(self.view_shape()),
    {
        let _ = self.data.len();
        proof {
            use_type_invariant(self);
            assert(numel(self.shape@) <= numel(self.shape@) * dtype_size(self.dtype))
                by (nonlinear_arith)
                requires
                    dtype_size(self.dtype) >= 1,
            ;
        }
        match checked_numel(self.shape.as_slice()) {
            Some(n) => n,
            None => 0,
        }
    }

    /// Whether the tensor has no elements.
    pub fn is_empty(&self) -> (r: bool)
        ensures
            r == (numel(self.view_shape()) == 0),
    {
        self.len() == 0
    }
}

/// Check one index entry against the format, for header length `h` and file length `file_len`.
fn check_entry(info: &TensorInfo, h: usize, file_len: usize) -> (r: bool)
    requires
        8 + h <= file_len,
    ensures
        r == entry_ok(*info, h as nat, file_len as nat),
{
    let dtype = match info.get_dtype() {
        Some(d) => d,
        None => {
            return false;
        },
    };
    if info.data_offsets.len() != 2 {
        return false;
    }
    let lo = info.data_offsets[0];
    let hi = info.data_offsets[1];
    if lo > hi {
        return false;
    }
    if hi > file_len - 8 - h {
        return false;
    }
    let n = match checked_numel(info.shape.as_slice()) {
        Some(n) => n,
        None => {
            proof {
                assert(numel(info.shape@) <= numel(info.shape@) * dtype_size(dtype))
                    by (nonlinear_arith)
                    requires
                        dtype_size(dtype) >= 1,
                ;
            }
            return false;
        },
    };
    match n.checked_mul(dtype.size()) {
        Some(bytes) => bytes == hi - lo,
        None => false,
    }
}

/// The container made of a header of bytes `header_json` and the packed payload `payload`.
pub open spec fn framed(header_json: Seq<u8>, payload: Seq<u8>) -> Seq<u8> {
    le_bytes(header_json.len(), 8) + header_json + payload
}

proof fn lemma_le_bytes_push(n: nat, j: nat)
    ensures
        le_bytes(n, j + 1) == le_bytes(n, j).push(((n / pow256(j)) % 256) as u8),
    decreases j,
{
    if j > 0 {
        lemma_le_bytes_push(n / 256, (j - 1) as nat);
        lemma_pow256_pos((j - 1) as nat);
        vstd::arithmetic::div_mod::lemma_div_denominator(n as int, 256, pow256((j - 1) as nat) as int);
        assert(le_bytes(n, j + 1) =~= le_bytes(n, j).push(((n / pow256(j)) % 256) as u8));
    } else {
        assert(pow256(0) == 1);
        assert(le_bytes(n / 256, 0) =~= Seq::<u8>::empty());
        assert(le_bytes(n, 1) =~= le_bytes(n, 0).push(((n / pow256(0)) % 256) as u8));
    }
}

proof fn lemma_pow256_pos(k: nat)
    ensures
        pow256(k) >= 1,
    decreases k,
{
    if k > 0 {
        lemma_pow256_pos((k - 1) as nat);
    }
}

/// Lay out a container: the header length in eight little-endian bytes, the
/// header bytes, then the payload.
pub fn write_container(header_json: &[u8], payload: &[u8]) -> (r: Vec<u8>)
    requires
        8 + header_json@.len() + payload@.len() <= usize::MAX,
    ensures
        r@ == framed(header_json@, payload@),
{
    let mut out: Vec<u8> = Vec::new();
    let total: u64 = header_json.len() as u64;
    let mut m: u64 = total;
    let mut j: usize = 0;
    assert(pow256(0) == 1);
    while j < 8
        invariant
            j <= 8,
            total == header_json@.len(),
            m as nat == total as nat / pow256(j as nat),
            out@ == le_bytes(total as nat, j as nat),
        decreases 8 - j,
    {
        proof {
            lemma_le_bytes_push(total as nat, j as nat);
            lemma_pow256_pos(j as nat);
            vstd::arithmetic::div_mod::lemma_div_denominator(total as int, pow256(j as nat) as int, 256);
            assert(pow256(j as nat) * 256 == pow256((j + 1) as nat));
        }
        out.push((m % 256) as u8);
        m = m / 256;
        j = j + 1;
    }
    let mut i: usize = 0;
    while i < header_json.len()
        invariant
            i <= header_json@.len(),
            out@ == le_bytes(total as nat, 8) + header_json@.subrange(0, i as int),
        decreases header_json@.len() - i,
    {
        out.push(header_json[i]);
        i = i + 1;
        proof {
            assert(out@ =~= le_bytes(total as nat, 8) + header_json@.subrange(0, i as int));
        }
    }
    let ghost prefix = out@;
    let mut k: usize = 0;
    while k < payload.len()
        invariant
            k <= payload@.len(),
            out@ == prefix + payload@.subrange(0, k as int),
        decreases payload@.len() - k,
    {
        out.push(payload[k]);
        k = k + 1;
        proof {
            assert(out@ =~= prefix + payload@.subrange(0, k as int));
        }
    }
    proof {
        assert(header_json@.subrange(0, header_json@.len() as int) =~= header_json@);
        assert(payload@.subrange(0, payload@.len() as int) =~= payload@);
    }
    out
}

/// Writing a header and payload and reading the container back gives the same
/// framing, the same header bytes, and, for every index entry that agrees with
/// the format, exactly the payload bytes that entry names.
pub proof fn lemma_container_round_trip(header_json: Seq<u8>, payload: Seq<u8>, info: TensorInfo)
    requires
        header_json.len() < pow256(8),
    ensures
        framing_ok(framed(header_json, payload)),
        stored_header_len(framed(header_json, payload)) == header_json.len(),
        framed(header_json, payload).subrange(8, 8 + header_json.len() as int) == header_json,
        entry_ok(info, header_json.len(), framed(header_json, payload).len()) ==> payload_of(
            framed(header_json, payload),
            header_json.len(),
            info,
        ) == payload.subrange(info.data_offsets@[0] as int, info.data_offsets@[1] as int),
{
    let bytes = framed(header_json, payload);
    lemma_le_round_trip(header_json.len(), 8);
    assert(bytes.subrange(0, 8) =~= le_bytes(header_json.len(), 8));
    assert(bytes.subrange(8, 8 + header_json.len() as int) =~= header_json);
    if entry_ok(info, header_json.len(), bytes.len()) {
        let h = header_json.len();
        assert(payload_of(bytes, h, info) =~= payload.subrange(
            info.data_offsets@[0] as int,
            info.data_offsets@[1] as int,
        ));
    }
}

} // verus!
