//! What the image calls the blobs and tables that scripts speak of.

use crate::image::{
    dec_blob, dec_parts, digit_name, digit_str, enc_blob, enc_parts, joined, kind_name,
    lemma_digits, lemma_joined, part_name, part_str, Kind, Name,
};
use crate::script::{Asset, Blob};
use vstd::prelude::*;
use vstd::string::*;

verus! {

/// The parts of a blob's name.
pub open spec fn blob_parts(b: Blob) -> Seq<&'static str> {
    match b {
        Blob::Conv1 => seq!["wconv1"],
        Blob::Conv2(p) => seq!["wconv2", part_name(p as int)],
        Blob::Enc(l, kind, sub) => enc_parts(l as int, kind, sub as int),
        Blob::Dec(l, kind, sub) => dec_parts(l as int, kind, sub as int),
    }
}

/// A blob that the image can hold.
pub open spec fn is_blob(b: Blob) -> bool {
    match b {
        Blob::Conv1 => true,
        Blob::Conv2(p) => p < 3,
        Blob::Enc(l, _, sub) => l < 4 && sub < 4,
        Blob::Dec(l, _, sub) => l < 4 && sub < 4,
    }
}

/// The parts of an asset's name.
pub open spec fn asset_parts(a: Asset) -> Seq<&'static str> {
    match a {
        Asset::Gelu1 => seq!["g1lut"],
        Asset::Gelu2(p) => seq!["g2lut", digit_name(p as int)],
        Asset::PosEnc => seq!["posenc"],
        Asset::EncLn1(l) => seq!["e", digit_name(l as int), "ln1_gb"],
        Asset::EncLn2(l) => seq!["e", digit_name(l as int), "ln2_gb"],
        Asset::EncLut(l, j) => seq!["e", digit_name(l as int), "lut", digit_name(j as int)],
        Asset::LnPost => seq!["lnpost_gb"],
        Asset::DecAll(l) => seq!["dc", digit_name(l as int)],
        Asset::DecLn1(l) => seq!["b", digit_name(l as int), "_ln1_gb.bin"],
        Asset::DecXln(l) => seq!["b", digit_name(l as int), "_xln_gb.bin"],
        Asset::DecLn2(l) => seq!["b", digit_name(l as int), "_ln2_gb.bin"],
        Asset::DecLut(l, j) => seq![
            "b",
            digit_name(l as int),
            "_lut",
            digit_name(j as int),
            ".bin",
        ],
    }
}

/// An asset that the image can hold.
pub open spec fn is_asset(a: Asset) -> bool {
    match a {
        Asset::Gelu2(p) => p < 3,
        Asset::EncLn1(l) => l < 4,
        Asset::EncLn2(l) => l < 4,
        Asset::EncLut(l, j) => l < 4 && j < 4,
        Asset::DecAll(l) => l < 4,
        Asset::DecLn1(l) => l < 4,
        Asset::DecXln(l) => l < 4,
        Asset::DecLn2(l) => l < 4,
        Asset::DecLut(l, j) => l < 4 && j < 4,
        _ => true,
    }
}

proof fn lemma_lengths()
    ensures
        "wconv1".spec_bytes().len() == 6,
        "wconv2".spec_bytes().len() == 6,
        "g1lut".spec_bytes().len() == 5,
        "g2lut".spec_bytes().len() == 5,
        "posenc".spec_bytes().len() == 6,
        "e".spec_bytes().len() == 1,
        "ln1_gb".spec_bytes().len() == 6,
        "ln2_gb".spec_bytes().len() == 6,
        "lut".spec_bytes().len() == 3,
        "lnpost_gb".spec_bytes().len() == 9,
        "dc".spec_bytes().len() == 2,
        "b".spec_bytes().len() == 1,
        "_ln1_gb.bin".spec_bytes().len() == 11,
        "_xln_gb.bin".spec_bytes().len() == 11,
        "_ln2_gb.bin".spec_bytes().len() == 11,
        "_lut".spec_bytes().len() == 4,
        ".bin".spec_bytes().len() == 4,
{
    broadcast use is_ascii_spec_bytes;

    reveal_strlit("wconv1");
    reveal_strlit("wconv2");
    reveal_strlit("g1lut");
    reveal_strlit("g2lut");
    reveal_strlit("posenc");
    reveal_strlit("e");
    reveal_strlit("ln1_gb");
    reveal_strlit("ln2_gb");
    reveal_strlit("lut");
    reveal_strlit("lnpost_gb");
    reveal_strlit("dc");
    reveal_strlit("b");
    reveal_strlit("_ln1_gb.bin");
    reveal_strlit("_xln_gb.bin");
    reveal_strlit("_ln2_gb.bin");
    reveal_strlit("_lut");
    reveal_strlit(".bin");
    assert("wconv1".is_ascii());
    assert("wconv2".is_ascii());
    assert("g1lut".is_ascii());
    assert("g2lut".is_ascii());
    assert("posenc".is_ascii());
    assert("e".is_ascii());
    assert("ln1_gb".is_ascii());
    assert("ln2_gb".is_ascii());
    assert("lut".is_ascii());
    assert("lnpost_gb".is_ascii());
    assert("dc".is_ascii());
    assert("b".is_ascii());
    assert("_ln1_gb.bin".is_ascii());
    assert("_xln_gb.bin".is_ascii());
    assert("_ln2_gb.bin".is_ascii());
    assert("_lut".is_ascii());
    assert(".bin".is_ascii());
}

/// What the image calls a blob.
pub fn blob_name(b: Blob) -> (n: Name)
    requires
        is_blob(b),
    ensures
        n@ == joined(blob_parts(b)),
{
    proof {
        lemma_lengths();
        lemma_digits();
        lemma_joined(blob_parts(b));
    }
    let ghost want = blob_parts(b);
    match b {
        Blob::Conv1 => {
            let p: [&str; 1] = ["wconv1"];
            assert(p@ =~= want);
            Name::of(p.as_slice())
        },
        Blob::Conv2(part) => {
            let p: [&str; 2] = ["wconv2", part_str(part)];
            assert(p@ =~= want);
            Name::of(p.as_slice())
        },
        Blob::Enc(l, kind, sub) => enc_blob(l, kind, sub),
        Blob::Dec(l, kind, sub) => dec_blob(l, kind, sub),
    }
}

/// What the image calls an asset.
pub fn asset_name(a: Asset) -> (n: Name)
    requires
        is_asset(a),
    ensures
        n@ == joined(asset_parts(a)),
{
    proof {
        lemma_lengths();
        lemma_digits();
        lemma_joined(asset_parts(a));
    }
    let ghost want = asset_parts(a);
    match a {
        Asset::Gelu1 => {
            let p: [&str; 1] = ["g1lut"];
            assert(p@ =~= want);
            Name::of(p.as_slice())
        },
        Asset::Gelu2(i) => {
            let p: [&str; 2] = ["g2lut", digit_str(i)];
            assert(p@ =~= want);
            Name::of(p.as_slice())
        },
        Asset::PosEnc => {
            let p: [&str; 1] = ["posenc"];
            assert(p@ =~= want);
            Name::of(p.as_slice())
        },
        Asset::EncLn1(l) => {
            let p: [&str; 3] = ["e", digit_str(l), "ln1_gb"];
            assert(p@ =~= want);
            Name::of(p.as_slice())
        },
        Asset::EncLn2(l) => {
            let p: [&str; 3] = ["e", digit_str(l), "ln2_gb"];
            assert(p@ =~= want);
            Name::of(p.as_slice())
        },
        Asset::EncLut(l, j) => {
            let p: [&str; 4] = ["e", digit_str(l), "lut", digit_str(j)];
            assert(p@ =~= want);
            Name::of(p.as_slice())
        },
        Asset::LnPost => {
            let p: [&str; 1] = ["lnpost_gb"];
            assert(p@ =~= want);
            Name::of(p.as_slice())
        },
        Asset::DecAll(l) => {
            let p: [&str; 2] = ["dc", digit_str(l)];
            assert(p@ =~= want);
            Name::of(p.as_slice())
        },
        Asset::DecLn1(l) => {
            let p: [&str; 3] = ["b", digit_str(l), "_ln1_gb.bin"];
            assert(p@ =~= want);
            Name::of(p.as_slice())
        },
        Asset::DecXln(l) => {
            let p: [&str; 3] = ["b", digit_str(l), "_xln_gb.bin"];
            assert(p@ =~= want);
            Name::of(p.as_slice())
        },
        Asset::DecLn2(l) => {
            let p: [&str; 3] = ["b", digit_str(l), "_ln2_gb.bin"];
            assert(p@ =~= want);
            Name::of(p.as_slice())
        },
        Asset::DecLut(l, j) => {
            let p: [&str; 5] = ["b", digit_str(l), "_lut", digit_str(j), ".bin"];
            assert(p@ =~= want);
            Name::of(p.as_slice())
        },
    }
}

/// The layers of a block are named by their letters: a cross-attention layer
/// as the plain one with an `x` in front.
pub proof fn law_kinds_are_named_by_their_letters()
    ensures
        kind_name(Kind::Q)@ == seq!['q'],
        kind_name(Kind::K)@ == seq!['k'],
        kind_name(Kind::V)@ == seq!['v'],
        kind_name(Kind::Out)@ == seq!['o', 'u', 't'],
        kind_name(Kind::Xq)@ == seq!['x'] + kind_name(Kind::Q)@,
        kind_name(Kind::Xk)@ == seq!['x'] + kind_name(Kind::K)@,
        kind_name(Kind::Xv)@ == seq!['x'] + kind_name(Kind::V)@,
        kind_name(Kind::Xout)@ == seq!['x'] + kind_name(Kind::Out)@,
        kind_name(Kind::Fc1)@ == seq!['f', 'c', '1'],
        kind_name(Kind::Fc2p)@ == seq!['f', 'c', '2', 'p'],
{
    reveal_strlit("q");
    reveal_strlit("k");
    reveal_strlit("v");
    reveal_strlit("out");
    reveal_strlit("xq");
    reveal_strlit("xk");
    reveal_strlit("xv");
    reveal_strlit("xout");
    reveal_strlit("fc1");
    reveal_strlit("fc2p");
}

/// Digits and letters count.
pub proof fn law_digits_and_letters_count(i: int)
    requires
        0 <= i < 4,
    ensures
        digit_name(i)@ == seq![(48 + i) as char],
        part_name(i)@ == seq![(97 + i) as char],
{
    reveal_strlit("0");
    reveal_strlit("1");
    reveal_strlit("2");
    reveal_strlit("3");
    reveal_strlit("a");
    reveal_strlit("b");
    reveal_strlit("c");
    reveal_strlit("d");
}

/// Behind its first letter, a layer of an encoder block other than the first
/// is named as the decoder's layer of the same block; the first block's
/// layers have no number, but for the undivided ones, which end in it.
pub proof fn law_encoder_and_decoder_layers_are_named_alike(l: int, kind: Kind, sub: int)
    requires
        1 <= l < 4,
        0 <= sub < 4,
    ensures
        enc_parts(l, kind, sub).skip(1) == dec_parts(l, kind, sub).skip(1),
        enc_parts(l, kind, sub)[0]@ == seq!['w'],
        dec_parts(l, kind, sub)[0]@ == seq!['d'],
        dec_parts(l, kind, sub)[1] == digit_name(l),
        dec_parts(l, kind, sub)[2] == kind_name(kind),
        kind == Kind::Fc1 ==> dec_parts(l, kind, sub)[3] == part_name(sub),
        kind == Kind::Fc2p ==> dec_parts(l, kind, sub)[3] == digit_name(sub),
        kind != Kind::Fc1 && kind != Kind::Fc2p ==> dec_parts(l, kind, sub).len() == 3,
{
    reveal_strlit("w");
    reveal_strlit("d");
    assert(enc_parts(l, kind, sub).skip(1) =~= dec_parts(l, kind, sub).skip(1));
}

/// The tables are called after what they are for: a block's layer norms after
/// the layer norm, its GELU tables after the quarter.
pub proof fn law_tables_are_named_after_their_use(l: usize, j: usize)
    requires
        l < 4,
        j < 4,
    ensures
        asset_parts(Asset::EncLn1(l))[1] == digit_name(l as int),
        asset_parts(Asset::EncLn1(l))[2]@ == seq!['l', 'n', '1', '_', 'g', 'b'],
        asset_parts(Asset::EncLn2(l))[1] == digit_name(l as int),
        asset_parts(Asset::EncLn2(l))[2]@ == seq!['l', 'n', '2', '_', 'g', 'b'],
        asset_parts(Asset::EncLut(l, j))[1] == digit_name(l as int),
        asset_parts(Asset::EncLut(l, j))[3] == digit_name(j as int),
        asset_parts(Asset::DecAll(l))[1] == digit_name(l as int),
        asset_parts(Asset::DecLn1(l))[1] == digit_name(l as int),
        asset_parts(Asset::DecLn1(l))[2]@.take(4) == seq!['_', 'l', 'n', '1'],
        asset_parts(Asset::DecXln(l))[2]@.take(4) == seq!['_', 'x', 'l', 'n'],
        asset_parts(Asset::DecLn2(l))[2]@.take(4) == seq!['_', 'l', 'n', '2'],
        asset_parts(Asset::DecLut(l, j))[1] == digit_name(l as int),
        asset_parts(Asset::DecLut(l, j))[3] == digit_name(j as int),
        asset_parts(Asset::Gelu2(j))[1] == digit_name(j as int),
        blob_parts(Blob::Conv2(j))[1] == part_name(j as int),
{
    reveal_strlit("ln1_gb");
    reveal_strlit("ln2_gb");
    reveal_strlit("_ln1_gb.bin");
    reveal_strlit("_xln_gb.bin");
    reveal_strlit("_ln2_gb.bin");
    assert("_ln1_gb.bin"@.take(4) =~= seq!['_', 'l', 'n', '1']);
    assert("_xln_gb.bin"@.take(4) =~= seq!['_', 'x', 'l', 'n']);
    assert("_ln2_gb.bin"@.take(4) =~= seq!['_', 'l', 'n', '2']);
}

} // verus!
