//! Resource naming for newly created rule bundles.
//!
//! A bundle created for `(tenant, group name)` is named
//! `<tenant>-<hex>`, where `hex` is the SHA-1 digest, in lowercase
//! hexadecimal, of the group name with every `_` replaced by `-`.  The
//! name is a pure function of tenant and group name, so the same group
//! always maps to the same bundle.

use vstd::prelude::*;
use vstd::string::StringExecFns;
use vstd::utf8::encode_utf8;

use crate::codec::string_bytes;

use sha1::Digest;
use sha1::Sha1;

verus! {

/// What the SHA-1 digest of a byte sequence is; a function of the bytes
/// alone.
pub uninterp spec fn sha1_of(data: Seq<u8>) -> Seq<u8>;

/// Relies on sha1's `Sha1::digest`: the 20-byte SHA-1 digest, a function
/// of the input bytes alone.
#[verifier::external_body]
fn sha1_digest(data: &Vec<u8>) -> (r: Vec<u8>)
    ensures
        r@ == sha1_of(data@),
        r@.len() == 20,
{
    Sha1::digest(data.as_slice()).to_vec()
}

/// The byte `_` replaced by `-`, everywhere.
pub open spec fn dashed(b: Seq<u8>) -> Seq<u8> {
    b.map_values(
        |x: u8|
            if x == 95 {
                45u8
            } else {
                x
            },
    )
}

/// Replaces every `_` byte by `-`.
#[verifier::loop_isolation(false)]
fn replace_underscores(v: &Vec<u8>) -> (r: Vec<u8>)
    ensures
        r@ == dashed(v@),
{
    let mut r: Vec<u8> = Vec::new();
    let mut i: usize = 0;
    while i < v.len()
        invariant
            i <= v.len(),
            r@.len() == i,
            forall|j: int| 0 <= j < i ==> r@[j] == dashed(v@)[j],
        decreases v.len() - i,
    {
        let b = v[i];
        if b == 95 {
            r.push(45);
        } else {
            r.push(b);
        }
        i += 1;
    }
    proof {
        assert(r@ =~= dashed(v@));
    }
    r
}

/// The lowercase hexadecimal digit of a nibble.
pub open spec fn hex_digit(n: u8) -> char {
    if n == 0 {
        '0'
    } else if n == 1 {
        '1'
    } else if n == 2 {
        '2'
    } else if n == 3 {
        '3'
    } else if n == 4 {
        '4'
    } else if n == 5 {
        '5'
    } else if n == 6 {
        '6'
    } else if n == 7 {
        '7'
    } else if n == 8 {
        '8'
    } else if n == 9 {
        '9'
    } else if n == 10 {
        'a'
    } else if n == 11 {
        'b'
    } else if n == 12 {
        'c'
    } else if n == 13 {
        'd'
    } else if n == 14 {
        'e'
    } else {
        'f'
    }
}

/// The lowercase hexadecimal spelling of a byte sequence, two digits per
/// byte.
pub open spec fn hex_of(b: Seq<u8>) -> Seq<char>
    decreases b.len(),
{
    if b.len() == 0 {
        Seq::empty()
    } else {
        hex_of(b.drop_last()) + seq![
            hex_digit((b.last() / 16) as u8),
            hex_digit((b.last() % 16) as u8),
        ]
    }
}

/// One hexadecimal digit as a string slice.
fn hex_digit_str(n: u8) -> (r: &'static str)
    requires
        n < 16,
    ensures
        r@ == seq![hex_digit(n)],
{
    proof {
        reveal_strlit("0");
        reveal_strlit("1");
        reveal_strlit("2");
        reveal_strlit("3");
        reveal_strlit("4");
        reveal_strlit("5");
        reveal_strlit("6");
        reveal_strlit("7");
        reveal_strlit("8");
        reveal_strlit("9");
        reveal_strlit("a");
        reveal_strlit("b");
        reveal_strlit("c");
        reveal_strlit("d");
        reveal_strlit("e");
        reveal_strlit("f");
    }
    if n == 0 {
        "0"
    } else if n == 1 {
        "1"
    } else if n == 2 {
        "2"
    } else if n == 3 {
        "3"
    } else if n == 4 {
        "4"
    } else if n == 5 {
        "5"
    } else if n == 6 {
        "6"
    } else if n == 7 {
        "7"
    } else if n == 8 {
        "8"
    } else if n == 9 {
        "9"
    } else if n == 10 {
        "a"
    } else if n == 11 {
        "b"
    } else if n == 12 {
        "c"
    } else if n == 13 {
        "d"
    } else if n == 14 {
        "e"
    } else {
        "f"
    }
}

/// The lowercase hexadecimal spelling of a byte vector.
#[verifier::loop_isolation(false)]
fn to_hex(bytes: &Vec<u8>) -> (r: String)
    ensures
        r@ == hex_of(bytes@),
{
    let mut r = String::new();
    proof {
        assert(r@ =~= hex_of(bytes@.take(0)));
    }
    let mut i: usize = 0;
    while i < bytes.len()
        invariant
            i <= bytes.len(),
            r@ == hex_of(bytes@.take(i as int)),
        decreases bytes.len() - i,
    {
        let b = bytes[i];
        proof {
            assert(bytes@.take(i + 1).drop_last() =~= bytes@.take(i as int));
            assert(bytes@.take(i + 1).last() == b);
        }
        let hi = b / 16;
        let lo = b % 16;
        r.append(hex_digit_str(hi));
        r.append(hex_digit_str(lo));
        proof {
            assert(r@ =~= hex_of(bytes@.take(i + 1)));
        }
        i += 1;
    }
    proof {
        assert(bytes@.take(bytes@.len() as int) =~= bytes@);
    }
    r
}

/// The resource name synthesized for a tenant and a group name: the
/// tenant, a dash, and the hex digest of the dashed group-name bytes.
pub open spec fn spec_resource_name(tenant: Seq<char>, group_name: Seq<char>) -> Seq<char> {
    tenant + seq!['-'] + hex_of(sha1_of(dashed(encode_utf8(group_name))))
}

/// Synthesizes the resource name of a newly created bundle for the given
/// tenant and group name.
pub fn k8s_resource_name(tenant_id: &String, group_name: &String) -> (r: String)
    ensures
        r@ == spec_resource_name(tenant_id@, group_name@),
{
    let name_bytes = string_bytes(group_name);
    let dashed_bytes = replace_underscores(&name_bytes);
    let digest = sha1_digest(&dashed_bytes);
    let hex = to_hex(&digest);
    let mut r = tenant_id.clone();
    r.append("-");
    r.append(hex.as_str());
    proof {
        reveal_strlit("-");
        assert("-"@ =~= seq!['-']);
        assert(r@ =~= spec_resource_name(tenant_id@, group_name@));
    }
    r
}

/// Naming stability: the synthesized name is a pure function of tenant
/// and group name, and two group names that agree once `_` is replaced by
/// `-` map to the same name.
pub proof fn lemma_naming_stable(tenant: Seq<char>, a: Seq<char>, b: Seq<char>)
    requires
        dashed(encode_utf8(a)) == dashed(encode_utf8(b)),
    ensures
        spec_resource_name(tenant, a) == spec_resource_name(tenant, b),
{
}

/// Two synthesized names with digests of equal length collide only when
/// both the tenant and the digest agree: the name determines the tenant.
pub proof fn lemma_resource_name_tenant_unique(
    t1: Seq<char>,
    g1: Seq<char>,
    t2: Seq<char>,
    g2: Seq<char>,
)
    requires
        spec_resource_name(t1, g1) == spec_resource_name(t2, g2),
        sha1_of(dashed(encode_utf8(g1))).len() == sha1_of(dashed(encode_utf8(g2))).len(),
    ensures
        t1 == t2,
{
    let h1 = hex_of(sha1_of(dashed(encode_utf8(g1))));
    let h2 = hex_of(sha1_of(dashed(encode_utf8(g2))));
    lemma_hex_len(sha1_of(dashed(encode_utf8(g1))));
    lemma_hex_len(sha1_of(dashed(encode_utf8(g2))));
    let n1 = t1 + seq!['-'] + h1;
    let n2 = t2 + seq!['-'] + h2;
    assert(n1.len() == t1.len() + 1 + h1.len());
    assert(n2.len() == t2.len() + 1 + h2.len());
    assert(t1.len() == t2.len());
    assert(t1 =~= t2) by {
        assert forall|i: int| 0 <= i < t1.len() implies t1[i] == t2[i] by {
            assert(n1[i] == t1[i]);
            assert(n2[i] == t2[i]);
        }
    }
}

/// The hex spelling has two digits per byte.
pub proof fn lemma_hex_len(b: Seq<u8>)
    ensures
        hex_of(b).len() == 2 * b.len(),
    decreases b.len(),
{
    if b.len() > 0 {
        lemma_hex_len(b.drop_last());
    }
}

} // verus!
