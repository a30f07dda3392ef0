//! Replies and their wire encoding.
use vstd::prelude::*;
use vstd::utf8::encode_utf8;
use crate::text::{int_string, int_text};

verus! {

/// The reply to one command.
#[derive(Debug)]
pub enum Reply {
    /// `+text`
    Status(String),
    /// `-CATEGORY message`
    Error(String),
    /// `:n`
    Integer(i128),
    /// `$len` and the bytes, or `$-1` for none.
    Bulk(Option<String>),
    /// `*n` and `n` bulk strings.
    Array(Vec<Option<String>>),
}

pub enum ReplyView {
    Status(Seq<char>),
    Error(Seq<char>),
    Integer(int),
    Bulk(Option<Seq<char>>),
    Array(Seq<Option<Seq<char>>>),
}

pub open spec fn opt_view(o: Option<String>) -> Option<Seq<char>> {
    match o {
        Some(s) => Some(s@),
        None => None,
    }
}

pub open spec fn opt_views(v: Seq<Option<String>>) -> Seq<Option<Seq<char>>> {
    v.map_values(|o: Option<String>| opt_view(o))
}

impl View for Reply {
    type V = ReplyView;

    open spec fn view(&self) -> ReplyView {
        match self {
            Reply::Status(s) => ReplyView::Status(s@),
            Reply::Error(s) => ReplyView::Error(s@),
            Reply::Integer(n) => ReplyView::Integer(*n as int),
            Reply::Bulk(b) => ReplyView::Bulk(opt_view(*b)),
            Reply::Array(v) => ReplyView::Array(opt_views(v@)),
        }
    }
}

/// The line terminator, `\r\n`.
pub open spec fn crlf() -> Seq<u8> {
    seq![13u8, 10u8]
}

/// `$` and the byte length, then the bytes; `$-1` for none.
pub open spec fn bulk_bytes(b: Option<Seq<char>>) -> Seq<u8> {
    match b {
        None => seq![36u8, 45u8, 49u8] + crlf(),
        Some(s) => seq![36u8] + encode_utf8(int_text(encode_utf8(s).len() as int)) + crlf()
            + encode_utf8(s) + crlf(),
    }
}

pub open spec fn bulks_bytes(items: Seq<Option<Seq<char>>>) -> Seq<u8>
    decreases items.len(),
{
    if items.len() == 0 {
        Seq::empty()
    } else {
        bulks_bytes(items.drop_last()) + bulk_bytes(items.last())
    }
}

/// The bytes of a reply on the wire.
pub open spec fn encoded(r: ReplyView) -> Seq<u8> {
    match r {
        ReplyView::Status(s) => seq![43u8] + encode_utf8(s) + crlf(),
        ReplyView::Error(s) => seq![45u8] + encode_utf8(s) + crlf(),
        ReplyView::Integer(n) => seq![58u8] + encode_utf8(int_text(n)) + crlf(),
        ReplyView::Bulk(b) => bulk_bytes(b),
        ReplyView::Array(items) => seq![42u8] + encode_utf8(int_text(items.len() as int)) + crlf()
            + bulks_bytes(items),
    }
}

fn push_crlf(out: &mut Vec<u8>)
    ensures
        final(out)@ == old(out)@ + crlf(),
{
    out.push(13u8);
    out.push(10u8);
    assert(final(out)@ =~= old(out)@ + crlf());
}

fn push_text(out: &mut Vec<u8>, s: &str)
    ensures
        final(out)@ == old(out)@ + encode_utf8(s@),
{
    out.extend_from_slice(s.as_bytes());
}

fn push_bulk(out: &mut Vec<u8>, b: &Option<String>)
    ensures
        final(out)@ == old(out)@ + bulk_bytes(opt_view(*b)),
{
    match b {
        None => {
            out.push(36u8);
            out.push(45u8);
            out.push(49u8);
            push_crlf(out);
        },
        Some(s) => {
            out.push(36u8);
            let n = s.as_str().as_bytes().len();
            push_text(out, int_string(n as i128).as_str());
            push_crlf(out);
            push_text(out, s.as_str());
            push_crlf(out);
        },
    }
    assert(final(out)@ =~= old(out)@ + bulk_bytes(opt_view(*b)));
}

impl Reply {
    /// The reply's bytes on the wire, each part ended by `\r\n`.
    pub fn encode(&self) -> (r: Vec<u8>)
        ensures
            r@ == encoded(self@),
    {
        let mut out: Vec<u8> = Vec::new();
        match self {
            Reply::Status(s) => {
                out.push(43u8);
                push_text(&mut out, s.as_str());
                push_crlf(&mut out);
            },
            Reply::Error(s) => {
                out.push(45u8);
                push_text(&mut out, s.as_str());
                push_crlf(&mut out);
            },
            Reply::Integer(n) => {
                out.push(58u8);
                push_text(&mut out, int_string(*n).as_str());
                push_crlf(&mut out);
            },
            Reply::Bulk(b) => {
                push_bulk(&mut out, b);
            },
            Reply::Array(items) => {
                out.push(42u8);
                push_text(&mut out, int_string(items.len() as i128).as_str());
                push_crlf(&mut out);
                let ghost head = out@;
                let mut i: usize = 0;
                while i < items.len()
                    invariant
                        i <= items@.len(),
                        out@ == head + bulks_bytes(opt_views(items@).subrange(0, i as int)),
                    decreases items@.len() - i,
                {
                    push_bulk(&mut out, &items[i]);
                    assert(opt_views(items@).subrange(0, i + 1).drop_last() =~= opt_views(items@).subrange(0, i as int));
                    assert(out@ =~= head + bulks_bytes(opt_views(items@).subrange(0, i + 1)));
                    i = i + 1;
                }
                assert(opt_views(items@).subrange(0, i as int) =~= opt_views(items@));
            },
        }
        assert(out@ =~= encoded(self@));
        out
    }
}

} // verus!
