//! The request frame: `*<n>\r\n` and then `n` elements, each `$<len>\r\n`,
//! exactly `len` raw bytes and `\r\n`. Lengths alone mark the boundaries, so
//! any bytes can travel in an element.
use vstd::prelude::*;
use vstd::utf8::{decode_utf8, valid_utf8};

verus! {

/// The largest count or length a header may give.
pub const MAX_LEN: u64 = 536870912;

/// What reading a header gives.
pub enum Scan {
    /// The number and the position after the header.
    Num(u64, usize),
    /// The buffer ends before the header does.
    More,
    /// Not a header.
    Bad,
}

pub enum ScanView {
    Num(int, int),
    More,
    Bad,
}

impl View for Scan {
    type V = ScanView;

    open spec fn view(&self) -> ScanView {
        match self {
            Scan::Num(n, p) => ScanView::Num(*n as int, *p as int),
            Scan::More => ScanView::More,
            Scan::Bad => ScanView::Bad,
        }
    }
}

pub open spec fn is_digit_byte(b: u8) -> bool {
    48 <= b <= 57
}

/// Reads decimal digits from `i` with value `acc` so far (`nd` digits), then
/// `\r\n`.
pub open spec fn scan_digits(buf: Seq<u8>, i: int, acc: int, nd: int) -> ScanView
    decreases buf.len() - i,
{
    if i < 0 || i >= buf.len() {
        ScanView::More
    } else if is_digit_byte(buf[i]) {
        let a = acc * 10 + (buf[i] - 48);
        if a > MAX_LEN { ScanView::Bad } else { scan_digits(buf, i + 1, a, nd + 1) }
    } else if nd == 0 || buf[i] != 13 {
        ScanView::Bad
    } else if i + 1 >= buf.len() {
        ScanView::More
    } else if buf[i + 1] != 10 {
        ScanView::Bad
    } else {
        ScanView::Num(acc, i + 2)
    }
}

/// A header at `pos`: the `marker` byte, a decimal number, `\r\n`.
pub open spec fn header(buf: Seq<u8>, pos: int, marker: u8) -> ScanView {
    if pos >= buf.len() {
        ScanView::More
    } else if buf[pos] != marker {
        ScanView::Bad
    } else {
        scan_digits(buf, pos + 1, 0, 0)
    }
}

/// What decoding gives.
pub enum Decoded {
    /// The elements of one frame and how many bytes it took.
    Frame(Vec<Vec<u8>>, usize),
    /// More bytes are needed; nothing was taken.
    Incomplete,
    /// The bytes are not a request frame.
    Invalid,
}

pub enum DecodedView {
    Frame(Seq<Seq<u8>>, int),
    Incomplete,
    Invalid,
}

pub open spec fn bytes_views(v: Seq<Vec<u8>>) -> Seq<Seq<u8>> {
    v.map_values(|b: Vec<u8>| b@)
}

impl View for Decoded {
    type V = DecodedView;

    open spec fn view(&self) -> DecodedView {
        match self {
            Decoded::Frame(args, used) => DecodedView::Frame(bytes_views(args@), *used as int),
            Decoded::Incomplete => DecodedView::Incomplete,
            Decoded::Invalid => DecodedView::Invalid,
        }
    }
}

/// `args` put before the elements of a frame.
pub open spec fn prefixed(args: Seq<Seq<u8>>, d: DecodedView) -> DecodedView {
    match d {
        DecodedView::Frame(rest, end) => DecodedView::Frame(args + rest, end),
        other => other,
    }
}

/// `k` elements from `pos`.
pub open spec fn elements(buf: Seq<u8>, pos: int, k: nat) -> DecodedView
    decreases k,
{
    if k == 0 {
        DecodedView::Frame(Seq::empty(), pos)
    } else {
        match header(buf, pos, 36) {
            ScanView::More => DecodedView::Incomplete,
            ScanView::Bad => DecodedView::Invalid,
            ScanView::Num(len, p) => if p + len + 2 > buf.len() {
                DecodedView::Incomplete
            } else if buf[p + len] != 13 || buf[p + len + 1] != 10 {
                DecodedView::Invalid
            } else {
                prefixed(seq![buf.subrange(p, p + len)], elements(buf, p + len + 2, (k - 1) as nat))
            },
        }
    }
}

/// One request frame at the start of `buf`.
pub open spec fn request(buf: Seq<u8>) -> DecodedView {
    match header(buf, 0, 42) {
        ScanView::More => DecodedView::Incomplete,
        ScanView::Bad => DecodedView::Invalid,
        ScanView::Num(n, p) => elements(buf, p, n as nat),
    }
}

proof fn lemma_prefixed(a: Seq<Seq<u8>>, b: Seq<Seq<u8>>, d: DecodedView)
    ensures
        prefixed(a, prefixed(b, d)) == prefixed(a + b, d),
{
    match d {
        DecodedView::Frame(rest, end) => {
            assert(a + (b + rest) =~= (a + b) + rest);
        },
        _ => {},
    }
}

fn scan_header(buf: &[u8], pos: usize, marker: u8) -> (r: Scan)
    ensures
        r@ == header(buf@, pos as int, marker),
        match r {
            Scan::Num(n, p) => n <= MAX_LEN && pos < p <= buf@.len(),
            _ => true,
        },
{
    if pos >= buf.len() {
        return Scan::More;
    }
    if buf[pos] != marker {
        return Scan::Bad;
    }
    let mut i: usize = pos + 1;
    let mut acc: u64 = 0;
    let mut nd: usize = 0;
    while i < buf.len() && 48 <= buf[i] && buf[i] <= 57
        invariant
            pos < i <= buf@.len(),
            acc <= MAX_LEN,
            nd <= i,
            header(buf@, pos as int, marker) == scan_digits(buf@, i as int, acc as int, nd as int),
        decreases buf@.len() - i,
    {
        acc = acc * 10 + (buf[i] - 48) as u64;
        if acc > MAX_LEN {
            return Scan::Bad;
        }
        i = i + 1;
        nd = nd + 1;
    }
    if i >= buf.len() {
        Scan::More
    } else if nd == 0 || buf[i] != 13 {
        Scan::Bad
    } else if i + 1 >= buf.len() {
        Scan::More
    } else if buf[i + 1] != 10 {
        Scan::Bad
    } else {
        Scan::Num(acc, i + 2)
    }
}

/// Decodes one request frame from the start of `buf`: its elements and the
/// number of bytes it took, `Incomplete` when the buffer ends before the
/// frame does, or `Invalid` for a malformed header or a missing terminator.
pub fn decode(buf: &[u8]) -> (r: Decoded)
    ensures
        r@ == request(buf@),
{
    let (n, start) = match scan_header(buf, 0, 42) {
        Scan::More => {
            return Decoded::Incomplete;
        },
        Scan::Bad => {
            return Decoded::Invalid;
        },
        Scan::Num(n, p) => (n, p),
    };
    let mut args: Vec<Vec<u8>> = Vec::new();
    let mut pos: usize = start;
    let mut k: u64 = 0;
    while k < n
        invariant
            k <= n <= MAX_LEN,
            pos <= buf@.len(),
            request(buf@) == prefixed(bytes_views(args@), elements(buf@, pos as int, (n - k) as nat)),
        decreases n - k,
    {
        let (len, p) = match scan_header(buf, pos, 36) {
            Scan::More => {
                return Decoded::Incomplete;
            },
            Scan::Bad => {
                return Decoded::Invalid;
            },
            Scan::Num(len, p) => (len, p),
        };
        let len = len as usize;
        if len > buf.len() - p || buf.len() - p - len < 2 {
            return Decoded::Incomplete;
        }
        if buf[p + len] != 13 || buf[p + len + 1] != 10 {
            return Decoded::Invalid;
        }
        let mut item: Vec<u8> = Vec::new();
        let mut j: usize = p;
        let end = p + len;
        while j < end
            invariant
                end == p + len,
                p <= j <= end <= buf@.len(),
                item@ == buf@.subrange(p as int, j as int),
            decreases end - j,
        {
            item.push(buf[j]);
            assert(item@ =~= buf@.subrange(p as int, j + 1));
            j = j + 1;
        }
        let ghost before = bytes_views(args@);
        proof {
            lemma_prefixed(before, seq![item@], elements(buf@, p + len + 2, (n - k - 1) as nat));
        }
        args.push(item);
        assert(bytes_views(args@) =~= before + seq![buf@.subrange(p as int, (p + len) as int)]);
        pos = p + len + 2;
        k = k + 1;
    }
    proof {
        assert(bytes_views(args@) + Seq::<Seq<u8>>::empty() =~= bytes_views(args@));
    }
    Decoded::Frame(args, pos)
}

/// Relies on `String::from_utf8`: it succeeds exactly on valid UTF-8, with
/// the characters the bytes encode.
#[verifier::external_body]
fn utf8_text(b: Vec<u8>) -> (r: Option<String>)
    ensures
        match r {
            Some(s) => valid_utf8(b@) && s@ == decode_utf8(b@),
            None => !valid_utf8(b@),
        },
{
    String::from_utf8(b).ok()
}

/// The elements as texts; `None` when one of them is not valid UTF-8.
pub fn texts_of(args: &Vec<Vec<u8>>) -> (r: Option<Vec<String>>)
    ensures
        match r {
            Some(v) => v@.len() == args@.len() && forall|i: int|
                0 <= i < args@.len() ==> valid_utf8(#[trigger] args@[i]@) && v@[i]@ == decode_utf8(args@[i]@),
            None => exists|i: int| 0 <= i < args@.len() && !valid_utf8(#[trigger] args@[i]@),
        },
{
    let mut out: Vec<String> = Vec::new();
    let mut i: usize = 0;
    while i < args.len()
        invariant
            i <= args@.len(),
            out@.len() == i,
            forall|j: int| 0 <= j < i ==> valid_utf8(#[trigger] args@[j]@) && out@[j]@ == decode_utf8(args@[j]@),
        decreases args@.len() - i,
    {
        match utf8_text(vstd::slice::slice_to_vec(args[i].as_slice())) {
            Some(s) => out.push(s),
            None => {
                return None;
            },
        }
        i = i + 1;
    }
    Some(out)
}

} // verus!
