//! What holds of the order of byte strings, texts and paths.
use vstd::prelude::*;
use vstd::utf8;

use crate::order;
use crate::path;
use crate::path::{PartView, PrefixView};

verus! {

/// The first byte in which two byte strings differ decides on their order, and what others start
/// with comes before them.
pub proof fn law_order_of_bytes(same: Seq<u8>, a: Seq<u8>, b: Seq<u8>)
    ensures
        order::bytes_le(same, same + a),
        a.len() > 0 ==> !order::bytes_le(same + a, same),
        a.len() > 0 && b.len() > 0 && a[0] < b[0] ==> order::bytes_le(same + a, same + b)
            && !order::bytes_le(same + b, same + a),
    decreases same.len(),
{
    let x = same + a;
    let y = same + b;
    if same.len() == 0 {
        assert(x =~= a && y =~= b);
    } else {
        law_order_of_bytes(same.skip(1), a, b);
        assert(x.skip(1) =~= same.skip(1) + a);
        assert(y.skip(1) =~= same.skip(1) + b);
        assert(x[0] == same[0] && y[0] == same[0]);
    }
}

proof fn lemma_encode_add(a: Seq<char>, b: Seq<char>)
    ensures
        utf8::encode_utf8(a + b) == utf8::encode_utf8(a) + utf8::encode_utf8(b),
    decreases a.len(),
{
    if a.len() == 0 {
        assert(a + b =~= b);
        assert(utf8::encode_utf8(a) + utf8::encode_utf8(b) =~= utf8::encode_utf8(b));
    } else {
        assert((a + b).drop_first() =~= a.drop_first() + b);
        assert((a + b)[0] == a[0]);
        lemma_encode_add(a.drop_first(), b);
        assert(utf8::encode_utf8(a + b) =~= utf8::encode_utf8(a) + utf8::encode_utf8(b));
    }
}

/// Texts are in the order of their bytes in UTF-8: the first character in which two of them differ
/// decides, where both are ASCII, and what others start with comes before them.
pub proof fn law_order_of_texts(same: Seq<char>, a: Seq<char>, b: Seq<char>)
    ensures
        order::text_le(a, b) == order::bytes_le(utf8::encode_utf8(a), utf8::encode_utf8(b)),
        order::text_le(same, same + a),
        a.len() > 0 && b.len() > 0 && a[0] < b[0] <= '\u{7f}' ==> order::text_le(
            same + a,
            same + b,
        ) && !order::text_le(same + b, same + a),
{
    lemma_encode_add(same, a);
    lemma_encode_add(same, b);
    let prefix = utf8::encode_utf8(same);
    let x = utf8::encode_utf8(a);
    let y = utf8::encode_utf8(b);
    law_order_of_bytes(prefix, x, y);
    if a.len() > 0 && b.len() > 0 && a[0] < b[0] <= '\u{7f}' {
        lemma_ascii_first(a);
        lemma_ascii_first(b);
    }
}

proof fn lemma_ascii_first(text: Seq<char>)
    requires
        text.len() > 0,
        text[0] <= '\u{7f}',
    ensures
        utf8::encode_utf8(text).len() > 0,
        utf8::encode_utf8(text)[0] as int == text[0] as int,
{
    lemma_ascii_char(text[0]);
}

proof fn lemma_ascii_char(c: char)
    requires
        c <= '\u{7f}',
    ensures
        utf8::encode_scalar(c as u32) == seq![c as u8],
        (c as u8) as int == c as int,
{
    let n = c as u32;
    assert(n <= 0x7f);
    assert(n & 0x7f == n) by (bit_vector)
        requires
            n <= 0x7f,
    ;
}

/// The first part in which two paths differ decides on their order, and a directory comes before
/// what is in it.
pub proof fn law_order_of_paths(
    same: Seq<PartView>,
    x: PartView,
    a: Seq<PartView>,
    y: PartView,
    b: Seq<PartView>,
)
    ensures
        path::parts_le(same, same + a),
        a.len() > 0 ==> !path::parts_le(same + a, same),
        x != y ==> path::parts_le(same + seq![x] + a, same + seq![y] + b) == path::part_le(x, y),
    decreases same.len(),
{
    let p = same + seq![x] + a;
    let q = same + seq![y] + b;
    let r = same + a;
    if same.len() == 0 {
        assert(p[0] == x && q[0] == y);
        assert(r =~= a);
    } else {
        law_order_of_paths(same.skip(1), x, a, y, b);
        assert(p.skip(1) =~= same.skip(1) + seq![x] + a);
        assert(q.skip(1) =~= same.skip(1) + seq![y] + b);
        assert(r.skip(1) =~= same.skip(1) + a);
        assert(p[0] == same[0] && q[0] == same[0] && r[0] == same[0]);
    }
}

/// Of two parts of a path, a prefix comes first, and after it the root, `.`, `..` and names, and
/// names come in the order of their bytes.
pub proof fn law_order_of_parts(prefix: PrefixView, name: Seq<u8>, other: Seq<u8>)
    ensures
        path::part_le(PartView::Prefix(prefix), PartView::RootDir),
        !path::part_le(PartView::RootDir, PartView::Prefix(prefix)),
        path::part_le(PartView::RootDir, PartView::CurDir),
        !path::part_le(PartView::CurDir, PartView::RootDir),
        path::part_le(PartView::CurDir, PartView::ParentDir),
        !path::part_le(PartView::ParentDir, PartView::CurDir),
        path::part_le(PartView::ParentDir, PartView::Normal(name)),
        !path::part_le(PartView::Normal(name), PartView::ParentDir),
        path::part_le(PartView::Normal(name), PartView::Normal(other)) == order::bytes_le(
            name,
            other,
        ),
{
}

/// Of two prefixes, verbatim names come first, and after them verbatim shares, verbatim drives,
/// devices, shares and drives. Within a kind the order is that of what they name.
pub proof fn law_order_of_prefixes(
    a: Seq<u8>,
    b: Seq<u8>,
    share: Seq<u8>,
    other: Seq<u8>,
    x: u8,
    y: u8,
)
    ensures
        !path::prefix_le(PrefixView::VerbatimUnc(a, share), PrefixView::Verbatim(b)),
        !path::prefix_le(PrefixView::VerbatimDisk(x), PrefixView::VerbatimUnc(a, share)),
        !path::prefix_le(PrefixView::DeviceNs(a), PrefixView::VerbatimDisk(x)),
        !path::prefix_le(PrefixView::Unc(a, share), PrefixView::DeviceNs(b)),
        !path::prefix_le(PrefixView::Disk(x), PrefixView::Unc(a, share)),
        path::prefix_le(PrefixView::Verbatim(a), PrefixView::Verbatim(b)) == order::bytes_le(a, b),
        path::prefix_le(PrefixView::DeviceNs(a), PrefixView::DeviceNs(b)) == order::bytes_le(a, b),
        path::prefix_le(PrefixView::Disk(x), PrefixView::Disk(y)) == (x <= y),
        path::prefix_le(PrefixView::VerbatimDisk(x), PrefixView::VerbatimDisk(y)) == (x <= y),
        a != b ==> path::prefix_le(PrefixView::Unc(a, share), PrefixView::Unc(b, other))
            == order::bytes_le(a, b),
        path::prefix_le(PrefixView::Unc(a, share), PrefixView::Unc(a, other)) == order::bytes_le(
            share,
            other,
        ),
        a != b ==> path::prefix_le(
            PrefixView::VerbatimUnc(a, share),
            PrefixView::VerbatimUnc(b, other),
        ) == order::bytes_le(a, b),
        path::prefix_le(PrefixView::VerbatimUnc(a, share), PrefixView::VerbatimUnc(a, other))
            == order::bytes_le(share, other),
{
    order::lemma_bytes_le(a, b, a);
    order::lemma_bytes_le(share, share, share);
    let none = Seq::<u8>::empty();
    assert(seq![x][0] == x && seq![y][0] == y);
    law_order_of_bytes(none, seq![x], seq![y]);
    law_order_of_bytes(none, seq![y], seq![x]);
    assert(none + seq![x] =~= seq![x]);
    assert(none + seq![y] =~= seq![y]);
    order::lemma_bytes_le(none, none, none);
}

} // verus!
