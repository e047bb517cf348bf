//! What names a layer.
use crate::layer_type;
use crate::layer_type::LayerType;
use crate::text;
use vstd::prelude::*;

verus! {

/// A text in capitals.
pub open spec fn capitals(s: Seq<char>) -> Seq<char> {
    s.map_values(|c: char| layer_type::ascii_upper(c))
}

/// Texts that differ at a place are different.
proof fn lemma_differ(a: Seq<char>, b: Seq<char>, i: int)
    requires
        0 <= i < a.len(),
        a.len() != b.len() || a[i] != b[i],
    ensures
        a != b,
{
}

/// A number is read back from its numeral.
proof fn lemma_integer(n: i32)
    ensures
        layer_type::integer(layer_type::signed_digits(n as int)) == Some(n),
        capitals(layer_type::signed_digits(n as int)) == layer_type::signed_digits(n as int),
        layer_type::is_ascii(layer_type::signed_digits(n as int)),
{
    let s = layer_type::signed_digits(n as int);
    let m = if n < 0 {
        -(n as int)
    } else {
        n as int
    };
    let d = text::dec_digits(m as nat);
    text::lemma_dec_digits(m as nat);
    assert(text::is_digit(d[0]));
    if n < 0 {
        assert(s.skip(1) =~= d);
    } else {
        assert(s[0] == d[0]);
    }
    assert forall|i: int| 0 <= i < s.len() implies layer_type::ascii_upper(#[trigger] s[i]) == s[i]
        && (s[i] as int) < 128 by {
        if n < 0 && i > 0 {
            assert(text::is_digit(d[i - 1]));
        } else if n >= 0 {
            assert(text::is_digit(d[i]));
        }
    }
    assert(capitals(s) =~= s);
}

/// An inner layer is named by `GL` and its number.
proof fn lemma_inner(n: i32, value: Seq<char>)
    ensures
        ({
            let s = LayerType::Inner(n).extension_spec();
            &&& layer_type::type_of_extension(capitals(s), value) == Ok::<LayerType, Seq<char>>(
                LayerType::Inner(n),
            )
            &&& layer_type::is_ascii(s)
        }),
{
    let s = LayerType::Inner(n).extension_spec();
    let d = layer_type::signed_digits(n as int);
    lemma_integer(n);
    reveal_strlit("gl");
    reveal_strlit("GL");
    let u = capitals(s);
    assert(u =~= "GL"@ + d) by {
        assert(capitals("gl"@) =~= "GL"@);
        assert(u =~= capitals("gl"@) + capitals(d));
    }
    assert("GL"@.is_prefix_of(u));
    assert(u.skip(2) =~= d);
    assert(u[0] == 'G' && u[1] == 'L');
    reveal_strlit("GTL");
    reveal_strlit("GBL");
    reveal_strlit("GTP");
    reveal_strlit("GBP");
    reveal_strlit("GTS");
    reveal_strlit("GBS");
    reveal_strlit("GTO");
    reveal_strlit("GBO");
    reveal_strlit("DRD");
    reveal_strlit("DRL");
    reveal_strlit("GM1");
    reveal_strlit("GM2");
    reveal_strlit("GVC");
    reveal_strlit("GSP");
    reveal_strlit("GKO");
    reveal_strlit("GBR");
    lemma_differ("GTL"@, u, 1);
    lemma_differ("GBL"@, u, 1);
    lemma_differ("GTP"@, u, 1);
    lemma_differ("GBP"@, u, 1);
    lemma_differ("GTS"@, u, 1);
    lemma_differ("GBS"@, u, 1);
    lemma_differ("GTO"@, u, 1);
    lemma_differ("GBO"@, u, 1);
    lemma_differ("DRD"@, u, 0);
    lemma_differ("DRL"@, u, 0);
    lemma_differ("GM1"@, u, 1);
    lemma_differ("GM2"@, u, 1);
    lemma_differ("GVC"@, u, 1);
    lemma_differ("GSP"@, u, 1);
    lemma_differ("GKO"@, u, 1);
    lemma_differ("GBR"@, u, 1);
}

/// The extension of a layer type, in small letters or in capitals, names that type. `Info` has an
/// extension that names none.
pub proof fn law_extension_names_type(t: LayerType, value: Seq<char>)
    requires
        t != LayerType::Info,
    ensures
        layer_type::type_of_extension(capitals(t.extension_spec()), value) == Ok::<
            LayerType,
            Seq<char>,
        >(t),
        layer_type::is_ascii(t.extension_spec()),
{
    match t {
        LayerType::Inner(n) => {
            lemma_inner(n, value);
        },
        _ => {
            reveal_strlit("gtl");
            reveal_strlit("gbl");
            reveal_strlit("gtp");
            reveal_strlit("gbp");
            reveal_strlit("gts");
            reveal_strlit("gbs");
            reveal_strlit("gto");
            reveal_strlit("gbo");
            reveal_strlit("drl");
            reveal_strlit("gm1");
            reveal_strlit("gm2");
            reveal_strlit("gvc");
            reveal_strlit("gsp");
            reveal_strlit("gko");
            reveal_strlit("gbr");
            reveal_strlit("GTL");
            reveal_strlit("GBL");
            reveal_strlit("GTP");
            reveal_strlit("GBP");
            reveal_strlit("GTS");
            reveal_strlit("GBS");
            reveal_strlit("GTO");
            reveal_strlit("GBO");
            reveal_strlit("DRD");
            reveal_strlit("DRL");
            reveal_strlit("GM1");
            reveal_strlit("GM2");
            reveal_strlit("GVC");
            reveal_strlit("GSP");
            reveal_strlit("GKO");
            reveal_strlit("GBR");
            let s = t.extension_spec();
            let u = capitals(s);
            assert(u.len() == 3);
            assert(u[0] == layer_type::ascii_upper(s[0]));
            assert(u[1] == layer_type::ascii_upper(s[1]));
            assert(u[2] == layer_type::ascii_upper(s[2]));
            match t {
                LayerType::Top => assert(u =~= "GTL"@),
                LayerType::Bottom => assert(u =~= "GBL"@),
                LayerType::PasteTop => assert(u =~= "GTP"@),
                LayerType::PasteBottom => assert(u =~= "GBP"@),
                LayerType::MaskTop => assert(u =~= "GTS"@),
                LayerType::MaskBottom => assert(u =~= "GBS"@),
                LayerType::SilkScreenTop => assert(u =~= "GTO"@),
                LayerType::SilkScreenBottom => assert(u =~= "GBO"@),
                LayerType::Drill => assert(u =~= "DRL"@),
                LayerType::Dimensions => assert(u =~= "GM1"@),
                LayerType::Milling => assert(u =~= "GM2"@),
                LayerType::VCut => assert(u =~= "GVC"@),
                LayerType::SidePlating => assert(u =~= "GSP"@),
                LayerType::KeepOut => assert(u =~= "GKO"@),
                _ => assert(u =~= "GBR"@),
            }
        },
    }
}

} // verus!
