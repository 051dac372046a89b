//! Files as the protocol sees them: what the sender offers, what the receiver
//! asks for, and the handles that pair an id with a name and a size.
use vstd::prelude::*;
use vstd::string::*;

verus! {

/// A requested file and the byte at which its transfer begins.
#[derive(Debug, Clone, Copy, PartialEq, Eq, Structural)]
pub struct ChunkHeader {
    pub id: u8,
    pub start: u64,
}

/// One file as the sender offers it: its id, its path and its size in bytes.
#[derive(Debug, Clone, PartialEq, Eq)]
pub struct FileOffer {
    pub id: u8,
    pub path: String,
    pub size: u64,
}

/// The value of a [`FileOffer`], its path as characters.
pub struct OfferView {
    pub id: u8,
    pub path: Seq<char>,
    pub size: u64,
}

impl View for FileOffer {
    type V = OfferView;

    open spec fn view(&self) -> OfferView {
        OfferView { id: self.id, path: self.path@, size: self.size }
    }
}

/// The values of a list of offers.
pub open spec fn offers_view(v: Seq<FileOffer>) -> Seq<OfferView> {
    v.map_values(|o: FileOffer| o@)
}

impl FileOffer {
    pub fn new(id: u8, path: String, size: u64) -> (r: FileOffer)
        ensures
            r.id == id,
            r.path@ == path@,
            r.size == size,
    {
        FileOffer { id, path, size }
    }

    /// A copy with the same value.
    pub fn duplicate(&self) -> (r: FileOffer)
        ensures
            r@ == self@,
    {
        FileOffer { id: self.id, path: self.path.clone(), size: self.size }
    }
}

} // verus!

verus! {

/// A file on one side of a transfer: its id, the name to show or write, the
/// byte at which the transfer begins and the advertised size.
#[derive(Debug, Clone, PartialEq, Eq)]
pub struct StdFileHandle {
    pub id: u8,
    pub name: String,
    pub start: u64,
    pub size: u64,
}

impl StdFileHandle {
    pub fn new(id: u8, name: String, start: u64, size: u64) -> (r: StdFileHandle)
        ensures
            r.id == id,
            r.name@ == name@,
            r.start == start,
            r.size == size,
    {
        StdFileHandle { id, name, start, size }
    }
}

} // verus!

verus! {

/// A file that the sender offers: its id, its path and its size.
#[derive(Debug, Clone, PartialEq, Eq)]
pub struct FileHandle {
    pub id: u8,
    pub path: String,
    pub size: u64,
}

/// The ids of `hs` are their positions.
pub open spec fn ids_dense(hs: Seq<FileHandle>) -> bool {
    forall|i: int| 0 <= i < hs.len() ==> (#[trigger] hs[i]).id as int == i
}

/// The position after the last `/` of `p`, or 0 when it has none.
pub open spec fn name_start(p: Seq<char>) -> int
    decreases p.len(),
{
    if p.len() == 0 {
        0
    } else if p.last() == '/' {
        p.len() as int
    } else {
        name_start(p.drop_last())
    }
}

/// The last component of a path: what follows its last `/`.
pub open spec fn basename(p: Seq<char>) -> Seq<char> {
    p.subrange(name_start(p), p.len() as int)
}

proof fn lemma_name_start_bounds(p: Seq<char>)
    ensures
        0 <= name_start(p) <= p.len(),
    decreases p.len(),
{
    if p.len() > 0 && p.last() != '/' {
        lemma_name_start_bounds(p.drop_last());
    }
}

/// The last component of `path`, where the receiver writes the file.
pub fn file_name(path: &str) -> (r: String)
    ensures
        r@ == basename(path@),
{
    let n = path.unicode_len();
    let mut start: usize = 0;
    let mut i: usize = 0;
    while i < n
        invariant
            n == path@.len(),
            i <= n,
            start as int == name_start(path@.take(i as int)),
        decreases n - i,
    {
        let c = path.get_char(i);
        assert(path@.take(i + 1).drop_last() == path@.take(i as int));
        if c == '/' {
            start = i + 1;
        }
        i = i + 1;
    }
    assert(path@.take(n as int) == path@);
    proof {
        lemma_name_start_bounds(path@);
    }
    path.substring_char(start, n).to_string()
}

impl FileHandle {
    pub fn new(id: u8, path: String, size: u64) -> (r: FileHandle)
        ensures
            r.id == id,
            r.path@ == path@,
            r.size == size,
    {
        FileHandle { id, path, size }
    }

    /// Handles for the files to send, numbered in order from 0; an error when
    /// there are more than 256 of them.
    pub fn get_file_handles(files: &Vec<(String, u64)>) -> (r: Result<Vec<FileHandle>, crate::message::RuckError>)
        ensures
            r is Ok <==> files@.len() <= 256,
            r is Err ==> r->Err_0 == crate::message::RuckError::ProtocolError,
            r is Ok ==> r->Ok_0@.len() == files@.len() && ids_dense(r->Ok_0@),
            r is Ok ==> forall|i: int|
                0 <= i < files@.len() ==> (#[trigger] r->Ok_0@[i]).path@ == files@[i].0@
                    && r->Ok_0@[i].size == files@[i].1,
    {
        if files.len() > 256 {
            return Err(crate::message::RuckError::ProtocolError);
        }
        let mut out: Vec<FileHandle> = Vec::new();
        let mut i: usize = 0;
        while i < files.len()
            invariant
                i <= files@.len() <= 256,
                out@.len() == i,
                ids_dense(out@),
                forall|j: int|
                    0 <= j < i ==> (#[trigger] out@[j]).path@ == files@[j].0@ && out@[j].size
                        == files@[j].1,
            decreases files@.len() - i,
        {
            let (path, size) = &files[i];
            out.push(FileHandle { id: i as u8, path: path.clone(), size: *size });
            i = i + 1;
        }
        Ok(out)
    }

    /// What the sender offers for this file.
    pub fn to_file_offer(&self) -> (r: FileOffer)
        ensures
            r.id == self.id,
            r.path@ == self.path@,
            r.size == self.size,
    {
        FileOffer { id: self.id, path: self.path.clone(), size: self.size }
    }

    /// The files to upload, in the order of the receiver's request. An error
    /// when the request names an id that was not offered or asks to start
    /// anywhere but at byte 0.
    pub fn to_stds(handles: &Vec<FileHandle>, chunks: &Vec<ChunkHeader>) -> (r: Result<
        Vec<StdFileHandle>,
        crate::message::RuckError,
    >)
        requires
            ids_dense(handles@),
        ensures
            r is Ok <==> forall|i: int|
                0 <= i < chunks@.len() ==> (#[trigger] chunks@[i]).id < handles@.len()
                    && chunks@[i].start == 0,
            r is Err ==> r->Err_0 == crate::message::RuckError::ProtocolError,
            r is Ok ==> r->Ok_0@.len() == chunks@.len(),
            r is Ok ==> forall|i: int|
                0 <= i < chunks@.len() ==> {
                    let h = handles@[chunks@[i].id as int];
                    &&& (#[trigger] r->Ok_0@[i]).id == chunks@[i].id
                    &&& r->Ok_0@[i].name@ == h.path@
                    &&& r->Ok_0@[i].start == 0
                    &&& r->Ok_0@[i].size == h.size
                },
    {
        let mut out: Vec<StdFileHandle> = Vec::new();
        let mut i: usize = 0;
        while i < chunks.len()
            invariant
                i <= chunks@.len(),
                out@.len() == i,
                ids_dense(handles@),
                forall|j: int|
                    0 <= j < i ==> (#[trigger] chunks@[j]).id < handles@.len() && chunks@[j].start
                        == 0,
                forall|j: int|
                    0 <= j < i ==> {
                        let h = handles@[chunks@[j].id as int];
                        &&& (#[trigger] out@[j]).id == chunks@[j].id
                        &&& out@[j].name@ == h.path@
                        &&& out@[j].start == 0
                        &&& out@[j].size == h.size
                    },
            decreases chunks@.len() - i,
        {
            let c = chunks[i];
            if c.id as usize >= handles.len() || c.start != 0 {
                return Err(crate::message::RuckError::ProtocolError);
            }
            let h = &handles[c.id as usize];
            out.push(StdFileHandle { id: c.id, name: h.path.clone(), start: 0, size: h.size });
            i = i + 1;
        }
        Ok(out)
    }
}

/// The files that the receiver will write for the offers it accepted: each
/// under the last component of its offered path, from byte 0, with the offered
/// size.
pub fn create_or_find_files(desired: &Vec<FileOffer>) -> (r: Vec<StdFileHandle>)
    ensures
        r@.len() == desired@.len(),
        forall|i: int|
            0 <= i < desired@.len() ==> {
                &&& (#[trigger] r@[i]).id == desired@[i].id
                &&& r@[i].name@ == basename(desired@[i].path@)
                &&& r@[i].start == 0
                &&& r@[i].size == desired@[i].size
            },
{
    let mut out: Vec<StdFileHandle> = Vec::new();
    let mut i: usize = 0;
    while i < desired.len()
        invariant
            i <= desired@.len(),
            out@.len() == i,
            forall|j: int|
                0 <= j < i ==> {
                    &&& (#[trigger] out@[j]).id == desired@[j].id
                    &&& out@[j].name@ == basename(desired@[j].path@)
                    &&& out@[j].start == 0
                    &&& out@[j].size == desired@[j].size
                },
        decreases desired@.len() - i,
    {
        let d = &desired[i];
        out.push(StdFileHandle { id: d.id, name: file_name(d.path.as_str()), start: 0, size: d.size });
        i = i + 1;
    }
    out
}

} // verus!

verus! {

/// The decimal digits.
pub const DIGITS: &'static str = "0123456789";

/// `1024` to the power `k`.
pub open spec fn pow1024(k: nat) -> nat
    decreases k,
{
    if k == 0 {
        1
    } else {
        1024 * pow1024((k - 1) as nat)
    }
}

/// The unit of `size`, from `k` on: the largest power of 1024 up to `1024^6`
/// that `size` reaches.
pub open spec fn unit_index(size: nat, k: nat) -> nat
    decreases 6 - k,
{
    if k < 6 && size / pow1024(k) >= 1024 {
        unit_index(size, k + 1)
    } else {
        k
    }
}

/// The size in its unit, rounded half up to tenths: whole units and tenths.
pub open spec fn size_parts(size: nat) -> (nat, nat) {
    let u = pow1024(unit_index(size, 0));
    let f = ((size % u) * 10 + u / 2) / u;
    (size / u + f / 10, f % 10)
}

pub open spec fn digit_char(d: nat) -> char {
    DIGITS@[d as int]
}

/// The decimal form of `n`.
pub open spec fn decimal(n: nat) -> Seq<char>
    decreases n,
{
    if n < 10 {
        seq![digit_char(n)]
    } else {
        decimal(n / 10).push(digit_char(n % 10))
    }
}

pub open spec fn size_suffix(k: nat) -> Seq<char> {
    if k == 0 {
        "B"@
    } else if k == 1 {
        "KB"@
    } else if k == 2 {
        "MB"@
    } else if k == 3 {
        "GB"@
    } else if k == 4 {
        "TB"@
    } else if k == 5 {
        "PB"@
    } else {
        "EB"@
    }
}

/// A size for people: the number in its unit with one decimal, the decimal
/// left out when it is 0, a space and the unit.
pub open spec fn size_string(size: nat) -> Seq<char> {
    let (whole, tenth) = size_parts(size);
    decimal(whole) + (if tenth == 0 {
        Seq::empty()
    } else {
        seq!['.', digit_char(tenth)]
    }) + seq![' '] + size_suffix(unit_index(size, 0))
}

proof fn lemma_pow1024_bounds(k: nat)
    requires
        k <= 6,
    ensures
        pow1024(k) >= 1,
        pow1024(k) <= 1152921504606846976,
        k < 6 ==> pow1024(k) <= 1125899906842624,
        k >= 1 ==> pow1024(k) >= 1024,
{
    reveal_with_fuel(pow1024, 7);
}

fn suffix_at(k: usize) -> (r: &'static str)
    requires
        k <= 6,
    ensures
        r@ == size_suffix(k as nat),
{
    match k {
        0 => "B",
        1 => "KB",
        2 => "MB",
        3 => "GB",
        4 => "TB",
        5 => "PB",
        _ => "EB",
    }
}

fn push_digit(out: &mut String, d: u64)
    requires
        d < 10,
    ensures
        final(out)@ == old(out)@.push(digit_char(d as nat)),
{
    proof {
        reveal_strlit("0123456789");
    }
    let digits: &str = DIGITS;
    let s = digits.substring_char(d as usize, d as usize + 1);
    out.append(s);
    assert(s@ == seq![digit_char(d as nat)]);
}

fn push_decimal(out: &mut String, n: u64)
    ensures
        final(out)@ == old(out)@ + decimal(n as nat),
    decreases n,
{
    if n >= 10 {
        push_decimal(out, n / 10);
    }
    push_digit(out, n % 10);
}

/// The size in bytes as people read it: `"1.5 KB"`, `"1 MB"`, `"0 B"`.
pub fn to_size_string(size: u64) -> (r: String)
    ensures
        r@ == size_string(size as nat),
{
    let mut k: usize = 0;
    let mut unit: u64 = 1;
    while k < 6 && size / unit >= 1024
        invariant
            k <= 6,
            unit >= 1,
            unit as nat == pow1024(k as nat),
            unit_index(size as nat, 0) == unit_index(size as nat, k as nat),
        decreases 6 - k,
    {
        proof {
            lemma_pow1024_bounds(k as nat);
            lemma_pow1024_bounds((k + 1) as nat);
        }
        unit = unit * 1024;
        k = k + 1;
    }
    proof {
        lemma_pow1024_bounds(k as nat);
    }
    assert(unit_index(size as nat, k as nat) == k);
    let q = size / unit;
    let rem = size % unit;
    assert(rem as int * 10 + unit as int / 2 <= 12682136550675316736) by (nonlinear_arith)
        requires
            rem < unit,
            unit <= 1152921504606846976,
    ;
    let f = (rem * 10 + unit / 2) / unit;
    assert(f <= 10) by (nonlinear_arith)
        requires
            rem < unit,
            f as int == (rem as int * 10 + unit as int / 2) / (unit as int),
            unit >= 1,
    ;
    let whole = if f >= 10 {
        assert(unit >= 2) by (nonlinear_arith)
            requires
                rem < unit,
                f as int == (rem as int * 10 + unit as int / 2) / (unit as int),
                f >= 10,
                unit >= 1,
        ;
        assert(q < u64::MAX) by (nonlinear_arith)
            requires
                q as int == (size as int) / (unit as int),
                unit >= 2,
                size <= u64::MAX,
        ;
        q + 1
    } else {
        q
    };
    let tenth = f % 10;
    let mut out = String::new();
    push_decimal(&mut out, whole);
    if tenth != 0 {
        proof {
            reveal_strlit(".");
        }
        out.append(".");
        push_digit(&mut out, tenth);
    }
    proof {
        reveal_strlit(" ");
    }
    out.append(" ");
    out.append(suffix_at(k));
    out
}

} // verus!
