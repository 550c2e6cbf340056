//! Codec impairment parameters of the E-model (ITU-T G.107).
use crate::text::{
    a_text_is_found_where_it_first_stands, chars_of, find_seq, find_text, letters_at,
};
use vstd::prelude::*;

verus! {

/// The equipment impairment `Ie` and the packet-loss robustness `Bpl` of a
/// codec, in tenths.
#[derive(Clone, Copy, PartialEq, Eq, Structural, Debug)]
pub struct CodecParams {
    /// `Ie`, times ten.
    pub ie_tenths: u32,
    /// `Bpl`, times ten.
    pub bpl_tenths: u32,
}

/// Whether `needle` occurs in `haystack`, the case of ASCII letters ignored.
pub open spec fn occurs(haystack: Seq<char>, needle: Seq<char>) -> bool {
    find_text(haystack, needle, true, 0, haystack.len() as int) <= haystack.len()
}

/// The parameters of the codec that a name or a payload type stands for.
pub open spec fn params_of(codec: Seq<char>, pt: Option<u8>) -> CodecParams {
    if occurs(codec, "PCMU"@) || occurs(codec, "PCMA"@) || occurs(codec, "G.711"@) {
        CodecParams { ie_tenths: 0, bpl_tenths: 251 }
    } else if occurs(codec, "G.729"@) {
        CodecParams { ie_tenths: 100, bpl_tenths: 190 }
    } else if occurs(codec, "G.723"@) {
        CodecParams { ie_tenths: 150, bpl_tenths: 130 }
    } else if occurs(codec, "G.722"@) {
        CodecParams { ie_tenths: 40, bpl_tenths: 157 }
    } else if occurs(codec, "OPUS"@) || occurs(codec, "TELEPHONE"@) {
        CodecParams { ie_tenths: 0, bpl_tenths: 250 }
    } else if pt == Some(0u8) || pt == Some(8u8) {
        CodecParams { ie_tenths: 0, bpl_tenths: 251 }
    } else {
        CodecParams { ie_tenths: 100, bpl_tenths: 100 }
    }
}

/// Whether `needle` occurs in `haystack`, the case of ASCII letters ignored.
pub fn contains_ci(haystack: &str, needle: &str) -> (r: bool)
    requires
        needle@.len() > 0,
    ensures
        r == occurs(haystack@, needle@),
{
    let h = chars_of(haystack);
    let n = chars_of(needle);
    find_seq(&h, &n, true, 0, h.len()).is_some()
}

/// The impairment parameters of a codec. A codec without a name that is known
/// goes by its payload type.
pub fn codec_params(codec: Option<&str>, pt: Option<u8>) -> (r: CodecParams)
    ensures
        r == params_of(
            match codec {
                Some(c) => c@,
                None => ""@,
            },
            pt,
        ),
{
    let c = match codec {
        Some(c) => c,
        None => "",
    };
    proof {
        reveal_strlit("PCMU");
        reveal_strlit("PCMA");
        reveal_strlit("G.711");
        reveal_strlit("G.729");
        reveal_strlit("G.723");
        reveal_strlit("G.722");
        reveal_strlit("OPUS");
        reveal_strlit("TELEPHONE");
    }
    if contains_ci(c, "PCMU") || contains_ci(c, "PCMA") || contains_ci(c, "G.711") {
        CodecParams { ie_tenths: 0, bpl_tenths: 251 }
    } else if contains_ci(c, "G.729") {
        CodecParams { ie_tenths: 100, bpl_tenths: 190 }
    } else if contains_ci(c, "G.723") {
        CodecParams { ie_tenths: 150, bpl_tenths: 130 }
    } else if contains_ci(c, "G.722") {
        CodecParams { ie_tenths: 40, bpl_tenths: 157 }
    } else if contains_ci(c, "OPUS") || contains_ci(c, "TELEPHONE") {
        CodecParams { ie_tenths: 0, bpl_tenths: 250 }
    } else {
        match pt {
            Some(0) | Some(8) => CodecParams { ie_tenths: 0, bpl_tenths: 251 },
            _ => CodecParams { ie_tenths: 100, bpl_tenths: 100 },
        }
    }
}

/// Whether a name stands somewhere in a codec's name, the case ignored.
pub open spec fn named_in(codec: Seq<char>, name: Seq<char>) -> bool {
    exists|at: int|
        0 <= at <= codec.len() && #[trigger] letters_at(codec, name, true, at, codec.len() as int)
}

/// A codec's name holds another exactly where that stands somewhere in it.
pub proof fn a_name_occurs_where_it_stands(codec: Seq<char>, name: Seq<char>)
    ensures
        occurs(codec, name) <==> named_in(codec, name),
{
    let n = codec.len() as int;
    a_text_is_found_where_it_first_stands(codec, name, true, 0, n);
    if occurs(codec, name) {
        assert(letters_at(codec, name, true, find_text(codec, name, true, 0, n), n));
    }
}

/// What a codec impairs goes by the first of these names that stands in its own:
/// G.711 under each of its names, G.729, G.723, G.722, then Opus and telephone
/// events. Where none does, the payload types 0 and 8 are G.711.
pub proof fn impairments_go_by_the_name(codec: Seq<char>, pt: Option<u8>)
    ensures
        ({
            let p = params_of(codec, pt);
            let g711 = named_in(codec, "PCMU"@) || named_in(codec, "PCMA"@) || named_in(
                codec,
                "G.711"@,
            );
            let g729 = named_in(codec, "G.729"@);
            let g723 = named_in(codec, "G.723"@);
            let g722 = named_in(codec, "G.722"@);
            let opus = named_in(codec, "OPUS"@) || named_in(codec, "TELEPHONE"@);
            &&& g711 ==> p.ie_tenths == 0 && p.bpl_tenths == 251
            &&& !g711 && g729 ==> p.ie_tenths == 100 && p.bpl_tenths == 190
            &&& !g711 && !g729 && g723 ==> p.ie_tenths == 150 && p.bpl_tenths == 130
            &&& !g711 && !g729 && !g723 && g722 ==> p.ie_tenths == 40 && p.bpl_tenths == 157
            &&& !g711 && !g729 && !g723 && !g722 && opus ==> p.ie_tenths == 0 && p.bpl_tenths == 250
            &&& !g711 && !g729 && !g723 && !g722 && !opus ==> {
                &&& pt == Some(0u8) || pt == Some(8u8) ==> p.ie_tenths == 0 && p.bpl_tenths == 251
                &&& pt != Some(0u8) && pt != Some(8u8) ==> p.ie_tenths == 100 && p.bpl_tenths == 100
            }
        }),
{
    a_name_occurs_where_it_stands(codec, "PCMU"@);
    a_name_occurs_where_it_stands(codec, "PCMA"@);
    a_name_occurs_where_it_stands(codec, "G.711"@);
    a_name_occurs_where_it_stands(codec, "G.729"@);
    a_name_occurs_where_it_stands(codec, "G.723"@);
    a_name_occurs_where_it_stands(codec, "G.722"@);
    a_name_occurs_where_it_stands(codec, "OPUS"@);
    a_name_occurs_where_it_stands(codec, "TELEPHONE"@);
}

} // verus!
