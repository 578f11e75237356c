use vstd::prelude::*;
use vstd::string::*;

use crate::text::{chars_of, substring};

verus! {

/// Characters with the Unicode `White_Space` property, the set that
/// `char::is_whitespace` recognises.
pub open spec fn is_white(c: char) -> bool {
    let u = c as u32;
    (0x09 <= u <= 0x0D) || u == 0x20 || u == 0x85 || u == 0xA0 || u == 0x1680 || (0x2000 <= u
        <= 0x200A) || u == 0x2028 || u == 0x2029 || u == 0x202F || u == 0x205F || u == 0x3000
}

fn is_white_char(c: char) -> (b: bool)
    ensures
        b == is_white(c),
{
    let u = c as u32;
    (0x09 <= u && u <= 0x0D) || u == 0x20 || u == 0x85 || u == 0xA0 || u == 0x1680 || (0x2000 <= u
        && u <= 0x200A) || u == 0x2028 || u == 0x2029 || u == 0x202F || u == 0x205F || u == 0x3000
}

/// `s` without its leading whitespace.
pub open spec fn trim_start(s: Seq<char>) -> Seq<char>
    decreases s.len(),
{
    if s.len() > 0 && is_white(s[0]) {
        trim_start(s.drop_first())
    } else {
        s
    }
}

/// `s` without its trailing whitespace.
pub open spec fn trim_end(s: Seq<char>) -> Seq<char>
    decreases s.len(),
{
    if s.len() > 0 && is_white(s.last()) {
        trim_end(s.drop_last())
    } else {
        s
    }
}

/// `s` without whitespace at either end.
pub open spec fn trimmed(s: Seq<char>) -> Seq<char> {
    trim_end(trim_start(s))
}

/// The pieces of `s` between line feeds; always at least one piece.
pub open spec fn split_lines(s: Seq<char>) -> Seq<Seq<char>>
    decreases s.len(),
{
    if s.len() == 0 {
        seq![Seq::empty()]
    } else {
        let rest = split_lines(s.drop_last());
        if s.last() == '\n' {
            rest.push(Seq::empty())
        } else {
            rest.update(rest.len() - 1, rest.last().push(s.last()))
        }
    }
}

/// The address field of a controller line: a line of at least 24
/// characters is a device record, `"Device " + address + " " + name`,
/// with its address at positions 7 to 23; a shorter line is no record.
pub open spec fn line_address(l: Seq<char>) -> Option<Seq<char>> {
    if l.len() >= 24 {
        Some(l.subrange(7, 24))
    } else {
        None
    }
}

/// The addresses of the device records among `lines`, in order.
pub open spec fn addresses(lines: Seq<Seq<char>>) -> Seq<Seq<char>>
    decreases lines.len(),
{
    if lines.len() == 0 {
        seq![]
    } else {
        let prev = addresses(lines.drop_last());
        match line_address(lines.last()) {
            Some(a) => prev.push(a),
            None => prev,
        }
    }
}

/// The connected devices that a controller's listing reports.
pub open spec fn connected_addresses(output: Seq<char>) -> Seq<Seq<char>> {
    addresses(split_lines(trimmed(output)))
}

/// The address field of one line of the controller's listing, if the line
/// is long enough to be a device record.
pub fn device_address(line: &str) -> (r: Option<String>)
    ensures
        r.deep_view() == line_address(line@),
{
    let n = line.unicode_len();
    if n >= 24 {
        Some(substring(line, 7, 24))
    } else {
        None
    }
}

/// Bounds of `v` without whitespace at either end.
fn trim_bounds(v: &Vec<char>) -> (r: (usize, usize))
    ensures
        r.0 <= r.1 <= v@.len(),
        v@.subrange(r.0 as int, r.1 as int) == trimmed(v@),
{
    let n = v.len();
    let mut lo: usize = 0;
    assert(v@.subrange(0, n as int) =~= v@);
    while lo < n && is_white_char(v[lo])
        invariant
            n == v@.len(),
            lo <= n,
            trim_start(v@) == trim_start(v@.subrange(lo as int, n as int)),
        decreases n - lo,
    {
        assert(v@.subrange(lo as int, n as int).drop_first() =~= v@.subrange(lo + 1, n as int));
        lo = lo + 1;
    }
    let mut hi: usize = n;
    while hi > lo && is_white_char(v[hi - 1])
        invariant
            n == v@.len(),
            lo <= hi <= n,
            trim_start(v@) == v@.subrange(lo as int, n as int),
            trim_end(v@.subrange(lo as int, n as int)) == trim_end(
                v@.subrange(lo as int, hi as int),
            ),
        decreases hi,
    {
        assert(v@.subrange(lo as int, hi as int).drop_last() =~= v@.subrange(
            lo as int,
            hi - 1,
        ));
        hi = hi - 1;
    }
    (lo, hi)
}

proof fn lemma_split_lines_nonempty(s: Seq<char>)
    ensures
        split_lines(s).len() >= 1,
    decreases s.len(),
{
    if s.len() > 0 {
        lemma_split_lines_nonempty(s.drop_last());
    }
}

/// The device addresses in a controller's listing of connected devices:
/// the output is trimmed and split into lines, and each line long enough to
/// be a device record gives the address at its positions 7 to 23.
pub fn parse_devices_connected(output: &str) -> (r: Vec<String>)
    ensures
        r.deep_view() == connected_addresses(output@),
{
    let v = chars_of(output);
    let (lo, hi) = trim_bounds(&v);
    let ghost t = v@.subrange(lo as int, hi as int);
    let mut out: Vec<String> = Vec::new();
    let ghost mut done: Seq<Seq<char>> = seq![];
    let mut start: usize = lo;
    let mut i: usize = lo;
    assert(t.subrange(0, 0) =~= Seq::<char>::empty());
    assert(v@.subrange(start as int, i as int) =~= Seq::<char>::empty());
    assert(done.push(v@.subrange(start as int, i as int)) =~= seq![Seq::<char>::empty()]);
    while i < hi
        invariant
            v@ == output@,
            lo <= start <= i <= hi <= v@.len(),
            t == v@.subrange(lo as int, hi as int),
            split_lines(t.subrange(0, i - lo)) == done.push(v@.subrange(start as int, i as int)),
            out.deep_view() == addresses(done),
        decreases hi - i,
    {
        let ghost prefix = t.subrange(0, i + 1 - lo);
        assert(prefix.drop_last() =~= t.subrange(0, i - lo));
        assert(prefix.last() == v@[i as int]);
        if v[i] == '\n' {
            let line = substring(output, start, i);
            let a = device_address(line.as_str());
            let ghost l = v@.subrange(start as int, i as int);
            assert(done.push(l).drop_last() =~= done);
            match a {
                Some(a) => {
                    out.push(a);
                    assert(out.deep_view() =~= addresses(done.push(l)));
                },
                None => {},
            }
            proof {
                done = done.push(l);
                assert(v@.subrange(i + 1, i + 1) =~= Seq::<char>::empty());
            }
            start = i + 1;
        } else {
            proof {
                lemma_split_lines_nonempty(t.subrange(0, i - lo));
                assert(v@.subrange(start as int, i + 1) =~= v@.subrange(
                    start as int,
                    i as int,
                ).push(v@[i as int]));
                assert(split_lines(prefix) =~= done.push(v@.subrange(start as int, i + 1)));
            }
        }
        i = i + 1;
    }
    assert(t.subrange(0, hi - lo) =~= t);
    let line = substring(output, start, hi);
    let a = device_address(line.as_str());
    let ghost l = v@.subrange(start as int, hi as int);
    assert(done.push(l).drop_last() =~= done);
    match a {
        Some(a) => {
            out.push(a);
            assert(out.deep_view() =~= addresses(done.push(l)));
        },
        None => {},
    }
    out
}

/// A hexadecimal digit as the controller writes it, upper case.
pub open spec fn is_upper_hex(c: char) -> bool {
    ('0' <= c && c <= '9') || ('A' <= c && c <= 'F')
}

/// A hardware address in canonical form: six upper-case hexadecimal pairs
/// separated by colons, 17 characters in all.
pub open spec fn is_address(a: Seq<char>) -> bool {
    &&& a.len() == 17
    &&& forall|i: int|
        0 <= i < 17 ==> if i % 3 == 2 {
            a[i] == ':'
        } else {
            is_upper_hex(#[trigger] a[i])
        }
}

/// The line the controller prints for a connected device.
pub open spec fn record_line(address: Seq<char>, name: Seq<char>) -> Seq<char> {
    seq!['D', 'e', 'v', 'i', 'c', 'e', ' '] + address + seq![' '] + name
}

proof fn lemma_addresses_single(l: Seq<char>)
    ensures
        addresses(seq![l]) == match line_address(l) {
            Some(a) => seq![a],
            None => Seq::<Seq<char>>::empty(),
        },
{
    assert(seq![l].drop_last() =~= Seq::<Seq<char>>::empty());
    assert(addresses(Seq::<Seq<char>>::empty()) == Seq::<Seq<char>>::empty());
    assert(seq![l].last() == l);
    match line_address(l) {
        Some(a) => {
            assert(Seq::<Seq<char>>::empty().push(a) =~= seq![a]);
        },
        None => {},
    }
}

proof fn lemma_addresses_concat(a: Seq<Seq<char>>, b: Seq<Seq<char>>)
    ensures
        addresses(a + b) == addresses(a) + addresses(b),
    decreases b.len(),
{
    if b.len() == 0 {
        assert(a + b =~= a);
        assert(addresses(a) + addresses(b) =~= addresses(a));
    } else {
        lemma_addresses_concat(a, b.drop_last());
        assert((a + b).drop_last() =~= a + b.drop_last());
        assert((a + b).last() == b.last());
        match line_address(b.last()) {
            Some(x) => {
                assert(addresses(a) + addresses(b) =~= (addresses(a) + addresses(b.drop_last())).push(
                    x,
                ));
            },
            None => {},
        }
    }
}

/// A device record among the controller's lines gives exactly the address
/// that it holds, in its place among the other records.
pub proof fn record_line_yields_address(
    before: Seq<Seq<char>>,
    address: Seq<char>,
    name: Seq<char>,
    after: Seq<Seq<char>>,
)
    requires
        address.len() == 17,
    ensures
        addresses(before + seq![record_line(address, name)] + after) == addresses(before) + seq![
            address,
        ] + addresses(after),
{
    let l = record_line(address, name);
    assert(l.subrange(7, 24) =~= address);
    lemma_addresses_concat(before + seq![l], after);
    lemma_addresses_concat(before, seq![l]);
    lemma_addresses_single(l);
}

/// A line shorter than 24 characters adds nothing to the result and stops
/// nothing: the records around it give what they give without it.
pub proof fn short_lines_are_skipped(
    before: Seq<Seq<char>>,
    line: Seq<char>,
    after: Seq<Seq<char>>,
)
    requires
        line.len() < 24,
    ensures
        addresses(before + seq![line] + after) == addresses(before + after),
{
    lemma_addresses_concat(before + seq![line], after);
    lemma_addresses_concat(before, seq![line]);
    lemma_addresses_concat(before, after);
    lemma_addresses_single(line);
    assert(addresses(before) + addresses(seq![line]) =~= addresses(before));
}

proof fn lemma_trim_end_keeps(s: Seq<char>, k: int)
    requires
        1 <= k <= s.len(),
        !is_white(s[k - 1]),
    ensures
        k <= trim_end(s).len() <= s.len(),
        trim_end(s) == s.subrange(0, trim_end(s).len() as int),
    decreases s.len(),
{
    if s.len() > 0 && is_white(s.last()) {
        lemma_trim_end_keeps(s.drop_last(), k);
        let r = trim_end(s.drop_last());
        assert(s.drop_last().subrange(0, r.len() as int) =~= s.subrange(0, r.len() as int));
    } else {
        assert(s.subrange(0, s.len() as int) =~= s);
    }
}

proof fn lemma_split_single_line(s: Seq<char>)
    requires
        forall|i: int| 0 <= i < s.len() ==> s[i] != '\n',
    ensures
        split_lines(s) == seq![s],
    decreases s.len(),
{
    if s.len() == 0 {
        assert(s =~= Seq::<char>::empty());
        assert(split_lines(s) =~= seq![s]);
    } else {
        lemma_split_single_line(s.drop_last());
        assert(s.last() == s[s.len() - 1]);
        assert(s.last() != '\n');
        let rest = split_lines(s.drop_last());
        assert(rest.len() == 1);
        assert(rest.last() == s.drop_last());
        assert(s.drop_last().push(s.last()) =~= s);
        assert(split_lines(s) =~= seq![s]);
    }
}

/// A listing that holds one device record reports exactly that device's
/// address, whatever name follows it.
pub proof fn single_record_listing(address: Seq<char>, name: Seq<char>)
    requires
        is_address(address),
        forall|i: int| 0 <= i < name.len() ==> name[i] != '\n',
    ensures
        connected_addresses(record_line(address, name)) == seq![address],
{
    let l = record_line(address, name);
    assert(!is_white(l[0]));
    assert(trim_start(l) == l);
    assert(l[23] == address[16]);
    assert(is_upper_hex(address[16]));
    lemma_trim_end_keeps(l, 24);
    let t = trim_end(l);
    assert(trimmed(l) == t);
    assert forall|i: int| 0 <= i < t.len() implies t[i] != '\n' by {
        assert(t[i] == l[i]);
        if 7 <= i < 24 {
            assert(l[i] == address[i - 7]);
            if (i - 7) % 3 != 2 {
                assert(is_upper_hex(address[i - 7]));
            }
        }
    }
    lemma_split_single_line(t);
    lemma_addresses_single(t);
    assert(t.subrange(7, 24) =~= address);
}

} // verus!
