use vstd::prelude::*;

verus! {

/// The decimal digits of `n`, most significant first, as ASCII bytes.
pub open spec fn decimal(n: nat) -> Seq<u8>
    decreases n,
{
    if n < 10 {
        seq![(48 + n) as u8]
    } else {
        decimal(n / 10).push((48 + n % 10) as u8)
    }
}

/// The file name suffix of a saved replay, `.fafreplay`.
pub open spec fn replay_extension() -> Seq<u8> {
    seq![46u8, 102u8, 97u8, 102u8, 114u8, 101u8, 112u8, 108u8, 97u8, 121u8]
}

/// The directory levels of a match id: its base-100 digits above the lowest,
/// most significant first.
pub open spec fn shards(id: nat) -> (nat, nat, nat, nat) {
    ((id / 100000000) % 100, (id / 1000000) % 100, (id / 10000) % 100, (id / 100) % 100)
}

/// Where a match's replay is kept below the vault's root:
/// `<s0>/<s1>/<s2>/<s3>/<id>.fafreplay`, each level in decimal.
///
/// The levels are the id's base-100 groups (see `shards`), not single decimal
/// digits: the vault keeps match 2 under `0/0/0/0/2.fafreplay`, which a layout
/// by the first four digits of a zero-padded id (`0/0/0/2`) would not give.
/// Match 123456 goes to `0/0/12/34/123456.fafreplay`.
pub open spec fn vault_relative_path(id: nat) -> Seq<u8> {
    let (s0, s1, s2, s3) = shards(id);
    decimal(s0) + seq![47u8] + decimal(s1) + seq![47u8] + decimal(s2) + seq![47u8] + decimal(s3)
        + seq![47u8] + decimal(id) + replay_extension()
}

fn write_decimal(n: u32, out: &mut Vec<u8>)
    ensures
        final(out)@ == old(out)@ + decimal(n as nat),
    decreases n,
{
    if n >= 10 {
        write_decimal(n / 10, out);
    }
    out.push(48 + (n % 10) as u8);
    proof {
        if n >= 10 {
            assert(final(out)@ =~= old(out)@ + decimal(n as nat));
        } else {
            assert(final(out)@ =~= old(out)@ + decimal(n as nat));
        }
    }
}

/// The path of match `id`'s saved replay below the vault's root, as ASCII bytes.
pub fn replay_path(id: u32) -> (r: Vec<u8>)
    ensures
        r@ == vault_relative_path(id as nat),
{
    let mut r: Vec<u8> = Vec::new();
    write_decimal((id / 100000000) % 100, &mut r);
    r.push(47);
    write_decimal((id / 1000000) % 100, &mut r);
    r.push(47);
    write_decimal((id / 10000) % 100, &mut r);
    r.push(47);
    write_decimal((id / 100) % 100, &mut r);
    r.push(47);
    write_decimal(id, &mut r);
    r.push(46);
    r.push(102);
    r.push(97);
    r.push(102);
    r.push(114);
    r.push(101);
    r.push(112);
    r.push(108);
    r.push(97);
    r.push(121);
    proof {
        assert(r@ =~= vault_relative_path(id as nat));
    }
    r
}

} // verus!
