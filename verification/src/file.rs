//! The stream aggregator: a whole file is the nine-byte header, a four-byte
//! zero sentinel, then a run of tags to the end of the stream.
//!
//! A stream that ends exactly at a tag boundary decodes successfully to the
//! tags read so far; a stream that ends in the middle of a tag, or holds a
//! malformed tag, is an error.

use crate::error::FlvError;
use crate::header::{lemma_header_round_trip, FlvHeader};
use crate::script::lemma_parse_props_consumed;
use crate::stream::{be_u32, lemma_u32_be_round, u32_to_be};
use crate::stream::{ByteReader, ByteWriter};
use crate::tag::{lemma_tag_round_trip, spec_enc_tag, spec_parse_tag, tag_wf, FlvTag, TagView};
use crate::tag::FlvTagType;
use vstd::prelude::*;

verus! {

/// A decoded stream: its header and its tags in order.
#[derive(Debug, PartialEq, Eq)]
pub struct FlvFile {
    pub header: FlvHeader,
    pub tags: Vec<FlvTag>,
}

/// The mathematical model of a whole stream.
pub struct FileView {
    pub header: FlvHeader,
    pub tags: Seq<TagView>,
}

impl View for FlvFile {
    type V = FileView;

    open spec fn view(&self) -> FileView {
        FileView { header: self.header, tags: self.tags.deep_view() }
    }
}

/// Model-level validity of a stream: a valid header and valid tags.
pub open spec fn file_wf(f: FileView) -> bool {
    &&& f.header.wf()
    &&& forall|i: int| 0 <= i < f.tags.len() ==> tag_wf(#[trigger] f.tags[i])
}

/// Wire bytes of a run of tags, in order.
pub open spec fn spec_enc_tags(tags: Seq<TagView>) -> Seq<u8>
    decreases tags.len(),
{
    if tags.len() == 0 {
        Seq::empty()
    } else {
        spec_enc_tag(tags[0]) + spec_enc_tags(tags.drop_first())
    }
}

/// Wire bytes of a whole stream: header, zero sentinel, tags.
pub open spec fn spec_enc_file(f: FileView) -> Seq<u8> {
    f.header.spec_encode() + u32_to_be(0) + spec_enc_tags(f.tags)
}

/// Parsing tags until the stream is exhausted. Running out of bytes exactly
/// at a tag boundary ends the run; any failure inside a tag is an error.
pub open spec fn spec_parse_tags(b: Seq<u8>) -> Result<Seq<TagView>, FlvError>
    decreases b.len(),
{
    if b.len() == 0 {
        Ok(Seq::empty())
    } else {
        match spec_parse_tag(b) {
            Err(e) => Err(e),
            Ok((t, n)) => {
                if 1 <= n <= b.len() {
                    match spec_parse_tags(b.skip(n)) {
                        Err(e) => Err(e),
                        Ok(ts) => Ok(seq![t] + ts),
                    }
                } else {
                    Err(FlvError::IoError)
                }
            },
        }
    }
}

/// Parsing a whole stream: the header, the zero sentinel (any other value
/// is rejected), then tags to the end.
pub open spec fn spec_parse_file(b: Seq<u8>) -> Result<FileView, FlvError> {
    match FlvHeader::spec_parse(b) {
        Err(e) => Err(e),
        Ok((h, _)) => {
            if b.len() < 13 {
                Err(FlvError::IoError)
            } else if be_u32(b.subrange(9, 13)) != 0 {
                Err(FlvError::InvalidFile)
            } else {
                match spec_parse_tags(b.skip(13)) {
                    Err(e) => Err(e),
                    Ok(ts) => Ok(FileView { header: h, tags: ts }),
                }
            }
        },
    }
}

/// A successfully parsed tag consumes its fifteen fixed bytes plus the
/// payload, and never more than the input.
pub proof fn lemma_parse_tag_consumed(b: Seq<u8>)
    ensures
        spec_parse_tag(b) matches Ok((t, n)) ==> 15 <= n <= b.len(),
{
    if b.len() >= 11 {
        let b11 = b.skip(11);
        if b[0] == FlvTagType::SCRIPT_DATA {
            match crate::script::spec_parse_string(b11) {
                Ok((_, n1)) => {
                    let be = b11.skip(n1);
                    if be.len() >= 5 {
                        lemma_parse_props_consumed(
                            be.skip(5),
                            crate::stream::be_u32(be.subrange(1, 5)) as int,
                        );
                    }
                },
                Err(_) => {},
            }
        }
    }
}

impl FlvFile {
    /// A stream that encode accepts: a valid header and valid tags.
    pub open spec fn wf(&self) -> bool {
        &&& self.header.wf()
        &&& forall|i: int| 0 <= i < self.tags@.len() ==> (#[trigger] self.tags@[i]).wf()
    }

    /// Decodes tags until the input runs out, as `spec_parse_tags` says.
    #[verifier::loop_isolation(false)]
    #[verifier::rlimit(100)]
    fn decode_tags(r: &mut ByteReader) -> (res: Result<Vec<FlvTag>, FlvError>)
        requires
            old(r).wf(),
        ensures
            final(r).wf(),
            final(r).data@ == old(r).data@,
            old(r).pos <= final(r).pos,
            match spec_parse_tags(old(r).remaining()) {
                Ok(ts) => res matches Ok(got) && got.deep_view() == ts
                    && final(r).pos == final(r).data@.len(),
                Err(e) => res matches Err(got) && got == e,
            },
    {
        let ghost b0 = old(r).remaining();
        let ghost pos0 = old(r).pos;
        let mut tags: Vec<FlvTag> = Vec::new();
        while r.remaining_len() > 0
            invariant
                r.wf(),
                r.data@ == old(r).data@,
                pos0 <= r.pos,
                b0 == r.data@.skip(pos0 as int),
                match spec_parse_tags(r.remaining()) {
                    Ok(ts) => spec_parse_tags(b0) == Ok::<Seq<TagView>, FlvError>(
                        tags.deep_view() + ts,
                    ),
                    Err(e) => spec_parse_tags(b0) == Err::<Seq<TagView>, FlvError>(e),
                },
            decreases r.data@.len() - r.pos,
        {
            let ghost rem_before = r.remaining();
            let ghost dv_before = tags.deep_view();
            let tag = match FlvTag::decode(r) {
                Ok(t) => t,
                Err(e) => {
                    return Err(e);
                },
            };
            tags.push(tag);
            proof {
                lemma_parse_tag_consumed(rem_before);
                let (tv, n) = spec_parse_tag(rem_before)->Ok_0;
                assert(r.remaining() =~= rem_before.skip(n));
                assert(tags.deep_view() =~= dv_before.push(tv));
                match spec_parse_tags(r.remaining()) {
                    Ok(ts) => {
                        assert(dv_before + (seq![tv] + ts) =~= tags.deep_view() + ts);
                    },
                    Err(_) => {},
                }
            }
        }
        proof {
            assert(tags.deep_view() + Seq::<TagView>::empty() =~= tags.deep_view());
        }
        Ok(tags)
    }

    /// Decodes a whole stream. Consumes every byte on success: the tag run
    /// ends only where the input does.
    pub fn decode(r: &mut ByteReader) -> (res: Result<FlvFile, FlvError>)
        requires
            old(r).wf(),
        ensures
            final(r).wf(),
            final(r).data@ == old(r).data@,
            old(r).pos <= final(r).pos,
            match spec_parse_file(old(r).remaining()) {
                Ok(f) => res matches Ok(got) && got@ == f && final(r).pos == final(r).data@.len(),
                Err(e) => res matches Err(got) && got == e,
            },
    {
        let ghost b = old(r).remaining();
        let header = match FlvHeader::decode(r) {
            Ok(h) => h,
            Err(e) => {
                return Err(e);
            },
        };
        let ghost rem9 = r.remaining();
        let p = match r.read_u32_be() {
            Some(v) => v,
            None => {
                return Err(FlvError::IoError);
            },
        };
        proof {
            assert(b.subrange(9, 13) =~= rem9.take(4));
        }
        if p != 0 {
            return Err(FlvError::InvalidFile);
        }
        proof {
            assert(r.remaining() =~= b.skip(13));
        }
        let tags = match Self::decode_tags(r) {
            Ok(ts) => ts,
            Err(e) => {
                return Err(e);
            },
        };
        Ok(FlvFile { header, tags })
    }

    /// Encodes the header, the zero sentinel, then every tag in order.
    #[verifier::loop_isolation(false)]
    pub fn encode(&self, w: &mut ByteWriter)
        requires
            self.wf(),
        ensures
            final(w).data@ == old(w).data@ + spec_enc_file(self@),
    {
        let ghost prefix = old(w).data@;
        self.header.encode(w);
        w.write_u32_be(0);
        proof {
            assert(self@.tags.take(0) =~= Seq::<TagView>::empty());
            assert(w.data@ =~= prefix + self.header.spec_encode() + u32_to_be(0) + spec_enc_tags(
                self@.tags.take(0),
            ));
        }
        let mut i: usize = 0;
        while i < self.tags.len()
            invariant
                i <= self.tags@.len(),
                w.data@ == prefix + self.header.spec_encode() + u32_to_be(0) + spec_enc_tags(
                    self@.tags.take(i as int),
                ),
            decreases self.tags@.len() - i,
        {
            proof {
                lemma_tags_take_snoc(self@.tags, i as int);
            }
            self.tags[i].encode(w);
            i = i + 1;
            proof {
                assert(w.data@ =~= prefix + self.header.spec_encode() + u32_to_be(0)
                    + spec_enc_tags(self@.tags.take(i as int)));
            }
        }
        proof {
            assert(self@.tags.take(self.tags@.len() as int) =~= self@.tags);
            assert(w.data@ =~= prefix + spec_enc_file(self@));
        }
    }
}

// ---------------------------------------------------------------------------
// Laws
// ---------------------------------------------------------------------------
/// Extending a prefix of tags by one extends its encoding by that tag's
/// encoding.
pub proof fn lemma_tags_take_snoc(tags: Seq<TagView>, i: int)
    requires
        0 <= i < tags.len(),
    ensures
        spec_enc_tags(tags.take(i + 1)) == spec_enc_tags(tags.take(i)) + spec_enc_tag(tags[i]),
    decreases i,
{
    if i == 0 {
        let s1 = tags.take(1);
        assert(s1.len() == 1);
        assert(s1[0] == tags[0]);
        assert(s1.drop_first() =~= Seq::<TagView>::empty());
        assert(spec_enc_tags(Seq::<TagView>::empty()) == Seq::<u8>::empty());
        assert(tags.take(0) =~= Seq::<TagView>::empty());
        assert(spec_enc_tags(s1) == spec_enc_tag(s1[0]) + spec_enc_tags(s1.drop_first()));
        assert(spec_enc_tags(s1) =~= spec_enc_tags(tags.take(0)) + spec_enc_tag(tags[0]));
    } else {
        let rest = tags.drop_first();
        lemma_tags_take_snoc(rest, i - 1);
        let a = tags.take(i + 1);
        let c = tags.take(i);
        assert(a.len() == i + 1);
        assert(c.len() == i);
        assert(a.drop_first() =~= rest.take(i));
        assert(c.drop_first() =~= rest.take(i - 1));
        assert(a[0] == tags[0]);
        assert(c[0] == tags[0]);
        assert(tags[i] == rest[i - 1]);
        assert(spec_enc_tags(a) == spec_enc_tag(a[0]) + spec_enc_tags(a.drop_first()));
        assert(spec_enc_tags(c) == spec_enc_tag(c[0]) + spec_enc_tags(c.drop_first()));
        assert(spec_enc_tags(a) =~= spec_enc_tags(c) + spec_enc_tag(tags[i]));
    }
}

/// Round trip for a run of tags: a stream made of whole, well-formed tags
/// and nothing else decodes to exactly those tags. This is the boundary
/// half of the truncation law: input that ends exactly after a complete
/// tag yields every tag decoded so far, with no error.
#[verifier::rlimit(100)]
pub proof fn lemma_tags_round_trip(tags: Seq<TagView>)
    requires
        forall|i: int| 0 <= i < tags.len() ==> tag_wf(#[trigger] tags[i]),
    ensures
        spec_parse_tags(spec_enc_tags(tags)) == Ok::<Seq<TagView>, FlvError>(tags),
    decreases tags.len(),
{
    if tags.len() == 0 {
        assert(spec_enc_tags(tags) =~= Seq::<u8>::empty());
        assert(tags =~= Seq::<TagView>::empty());
    } else {
        let first = tags[0];
        let tail = tags.drop_first();
        let b = spec_enc_tags(tags);
        let tail_bytes = spec_enc_tags(tail);
        assert(spec_enc_tags(tags) == spec_enc_tag(first) + tail_bytes);
        assert(b =~= spec_enc_tag(first) + tail_bytes);
        lemma_tag_round_trip(first, tail_bytes);
        let n = spec_enc_tag(first).len() as int;
        lemma_parse_tag_consumed(b);
        assert(b.skip(n) =~= tail_bytes);
        lemma_tags_round_trip(tail);
        assert(seq![first] + tail =~= tags);
        assert(b.len() > 0);
    }
}

/// Truncation inside a tag is an error: if the remaining input is not
/// empty and its first tag cannot be parsed, the whole run fails with that
/// tag's error.
pub proof fn lemma_tags_error_propagates(b: Seq<u8>)
    requires
        b.len() > 0,
    ensures
        spec_parse_tag(b) matches Err(e) ==> spec_parse_tags(b) == Err::<Seq<TagView>, FlvError>(
            e,
        ),
{
}

/// Round trip: a well-formed stream decodes from its own encoding.
pub proof fn lemma_file_round_trip(f: FileView)
    requires
        file_wf(f),
    ensures
        spec_parse_file(spec_enc_file(f)) == Ok::<FileView, FlvError>(f),
{
    let b = spec_enc_file(f);
    lemma_header_round_trip(f.header, u32_to_be(0) + spec_enc_tags(f.tags));
    assert(b =~= f.header.spec_encode() + (u32_to_be(0) + spec_enc_tags(f.tags)));
    lemma_u32_be_round(0);
    assert(b.subrange(9, 13) =~= u32_to_be(0));
    assert(b.skip(13) =~= spec_enc_tags(f.tags));
    lemma_tags_round_trip(f.tags);
}

} // verus!
