//! The textual layer of the packet codec: a canonical JSON rendering of
//! packets and a strict parser for it.  Strings escape only `"` and `\`;
//! every other character stands for itself.  The whole document is the
//! packet under the single key `p`, with no whitespace between tokens.

use vstd::prelude::*;
use vstd::string::*;
use crate::packet::{CCFile, CCFsFile, CCPartialFile, FileModel, PacketModel, PacketTypes,
    TransferModel, WsPacket};
use crate::strutil::{dec_nat, digit_char, push_char};

verus! {

/// One character as it appears inside a string token: `"` and `\` are
/// escaped by a backslash, everything else stands for itself.
pub open spec fn esc_char(c: char) -> Seq<char> {
    if c == '"' || c == '\\' {
        seq!['\\', c]
    } else {
        seq![c]
    }
}

/// A string's characters with `"` and `\` escaped by a backslash.
pub open spec fn esc_str(s: Seq<char>) -> Seq<char>
    decreases s.len(),
{
    if s.len() == 0 {
        Seq::empty()
    } else {
        esc_str(s.drop_last()) + esc_char(s.last())
    }
}

/// A JSON string token: the escaped characters between double quotes.
pub open spec fn quoted(s: Seq<char>) -> Seq<char> {
    seq!['"'] + esc_str(s) + seq!['"']
}

/// A JSON boolean token.
pub open spec fn json_bool(b: bool) -> Seq<char> {
    if b {
        "true"@
    } else {
        "false"@
    }
}

/// The rendering of one file entry.
pub open spec fn json_of_file(f: FileModel) -> Seq<char> {
    "{\"name\":"@ + quoted(f.name) + ",\"data\":"@ + quoted(f.data) + ",\"read_only\":"@
        + json_bool(f.read_only) + "}"@
}

/// The rendering of one upload message.
pub open spec fn json_of_transfer(t: TransferModel) -> Seq<char> {
    match t {
        TransferModel::Full(f) => "{\"Full\":"@ + json_of_file(f) + "}"@,
        TransferModel::Partial(f, done) => "{\"Partial\":["@ + json_of_file(f) + ","@ + json_bool(
            done,
        ) + "]}"@,
    }
}

/// The rendering of one packet: unit variants as their name in a string,
/// payload variants as a one-key object.
pub open spec fn json_of_packet(p: PacketModel) -> Seq<char> {
    match p {
        PacketModel::S2cHb => "\"S2cHb\""@,
        PacketModel::S2cSync => "\"S2cSync\""@,
        PacketModel::S2cSyncF(f) => "{\"S2cSyncF\":"@ + json_of_file(f) + "}"@,
        PacketModel::C2sHb => "\"C2sHb\""@,
        PacketModel::C2sSync(t) => "{\"C2sSync\":"@ + json_of_transfer(t) + "}"@,
        PacketModel::C2sComp(id) => "{\"C2sComp\":"@ + dec_nat(id as nat) + "}"@,
        PacketModel::C2sReady => "\"C2sReady\""@,
    }
}

/// The whole wire document: the packet under the key `p`.
pub open spec fn json_of_wspacket(m: PacketModel) -> Seq<char> {
    "{\"p\":"@ + json_of_packet(m) + "}"@
}

/// Appends a literal's characters.
fn push_lit(out: &mut Vec<char>, lit: &str)
    ensures
        final(out)@ == old(out)@ + lit@,
{
    let n = lit.unicode_len();
    let mut k: usize = 0;
    while k < n
        invariant
            k <= n,
            n == lit@.len(),
            out@ =~= old(out)@ + lit@.subrange(0, k as int),
        decreases n - k,
    {
        out.push(lit.get_char(k));
        proof {
            assert(out@ =~= old(out)@ + lit@.subrange(0, k + 1 as int));
        }
        k += 1;
    }
    proof {
        assert(lit@.subrange(0, n as int) =~= lit@);
    }
}

/// Appends a string's characters with `"` and `\` escaped.
fn push_escaped(out: &mut Vec<char>, s: &String)
    ensures
        final(out)@ == old(out)@ + esc_str(s@),
{
    let n = s.as_str().unicode_len();
    let mut k: usize = 0;
    while k < n
        invariant
            k <= n,
            n == s@.len(),
            out@ =~= old(out)@ + esc_str(s@.subrange(0, k as int)),
        decreases n - k,
    {
        let c = s.as_str().get_char(k);
        proof {
            assert(s@.subrange(0, k + 1 as int).drop_last() =~= s@.subrange(0, k as int));
            assert(s@.subrange(0, k + 1 as int).last() == c);
        }
        if c == '"' || c == '\\' {
            out.push('\\');
            out.push(c);
        } else {
            out.push(c);
        }
        proof {
            assert(out@ =~= old(out)@ + esc_str(s@.subrange(0, k + 1 as int)));
        }
        k += 1;
    }
    proof {
        assert(s@.subrange(0, n as int) =~= s@);
    }
}

/// Appends a quoted, escaped string token.
fn push_quoted(out: &mut Vec<char>, s: &String)
    ensures
        final(out)@ == old(out)@ + quoted(s@),
{
    out.push('"');
    push_escaped(out, s);
    out.push('"');
    proof {
        assert(out@ =~= old(out)@ + quoted(s@));
    }
}

/// Appends a boolean token.
fn push_bool(out: &mut Vec<char>, b: bool)
    ensures
        final(out)@ == old(out)@ + json_bool(b),
{
    if b {
        push_lit(out, "true");
    } else {
        push_lit(out, "false");
    }
}

/// Appends the decimal rendering of `n`.
fn push_dec(out: &mut Vec<char>, n: u32)
    ensures
        final(out)@ == old(out)@ + dec_nat(n as nat),
    decreases n,
{
    if n < 10 {
        out.push(crate::strutil::digit_exec(n));
        proof {
            assert(out@ =~= old(out)@ + dec_nat(n as nat));
        }
    } else {
        push_dec(out, n / 10);
        out.push(crate::strutil::digit_exec(n % 10));
        proof {
            assert(out@ =~= old(out)@ + dec_nat(n as nat));
        }
    }
}

/// Appends the rendering of one file entry.
fn push_file(out: &mut Vec<char>, f: &CCFsFile)
    ensures
        final(out)@ == old(out)@ + json_of_file(f@),
{
    push_lit(out, "{\"name\":");
    push_quoted(out, &f.name);
    push_lit(out, ",\"data\":");
    push_quoted(out, &f.data);
    push_lit(out, ",\"read_only\":");
    push_bool(out, f.read_only);
    push_lit(out, "}");
    proof {
        assert(out@ =~= old(out)@ + json_of_file(f@));
    }
}

/// Appends the rendering of one upload message.
fn push_transfer(out: &mut Vec<char>, t: &CCFile)
    ensures
        final(out)@ == old(out)@ + json_of_transfer(t@),
{
    match t {
        CCFile::Full(f) => {
            push_lit(out, "{\"Full\":");
            push_file(out, f);
            push_lit(out, "}");
            proof {
                assert(out@ =~= old(out)@ + json_of_transfer(t@));
            }
        },
        CCFile::Partial(pf) => {
            push_lit(out, "{\"Partial\":[");
            push_file(out, &pf.0);
            push_lit(out, ",");
            push_bool(out, pf.1);
            push_lit(out, "]}");
            proof {
                assert(out@ =~= old(out)@ + json_of_transfer(t@));
            }
        },
    }
}

/// Appends the rendering of one packet.
fn push_packet(out: &mut Vec<char>, p: &PacketTypes)
    ensures
        final(out)@ == old(out)@ + json_of_packet(p@),
{
    match p {
        PacketTypes::S2cHb => {
            push_lit(out, "\"S2cHb\"");
        },
        PacketTypes::S2cSync => {
            push_lit(out, "\"S2cSync\"");
        },
        PacketTypes::S2cSyncF(f) => {
            push_lit(out, "{\"S2cSyncF\":");
            push_file(out, f);
            push_lit(out, "}");
            proof {
                assert(out@ =~= old(out)@ + json_of_packet(p@));
            }
        },
        PacketTypes::C2sHb => {
            push_lit(out, "\"C2sHb\"");
        },
        PacketTypes::C2sSync(t) => {
            push_lit(out, "{\"C2sSync\":");
            push_transfer(out, t);
            push_lit(out, "}");
            proof {
                assert(out@ =~= old(out)@ + json_of_packet(p@));
            }
        },
        PacketTypes::C2sComp(id) => {
            push_lit(out, "{\"C2sComp\":");
            push_dec(out, *id);
            push_lit(out, "}");
            proof {
                assert(out@ =~= old(out)@ + json_of_packet(p@));
            }
        },
        PacketTypes::C2sReady => {
            push_lit(out, "\"C2sReady\"");
        },
    }
}

/// Renders a whole wire document.
pub fn packet_to_json(p: &WsPacket) -> (r: Vec<char>)
    ensures
        r@ == json_of_wspacket(p@),
{
    let mut out: Vec<char> = Vec::new();
    push_lit(&mut out, "{\"p\":");
    push_packet(&mut out, &p.packet);
    push_lit(&mut out, "}");
    proof {
        assert(out@ =~= json_of_wspacket(p@));
    }
    out
}

// ---------------------------------------------------------------------
// The strict parser.  Each `sp_*` spec function is the meaning of the
// grammar; each `p_*` function computes exactly it.

/// Matches the literal `lit` at position `i`; on success the position
/// just past it.
pub open spec fn sp_lit(s: Seq<char>, i: int, lit: Seq<char>) -> Option<int> {
    if 0 <= i && i + lit.len() <= s.len() && s.subrange(i, i + lit.len()) == lit {
        Some(i + lit.len())
    } else {
        None
    }
}

/// Parses a string body from just after the opening quote up to and over
/// the closing quote: a backslash escapes exactly `"` or `\`.
pub open spec fn sp_str(s: Seq<char>, i: int) -> Option<(Seq<char>, int)>
    decreases s.len() - i,
{
    if i < 0 || i >= s.len() {
        None
    } else if s[i] == '"' {
        Some((Seq::empty(), i + 1))
    } else if s[i] == '\\' {
        if i + 1 < s.len() && (s[i + 1] == '"' || s[i + 1] == '\\') {
            match sp_str(s, i + 2) {
                Some((t, j)) => Some((seq![s[i + 1]] + t, j)),
                None => None,
            }
        } else {
            None
        }
    } else {
        match sp_str(s, i + 1) {
            Some((t, j)) => Some((seq![s[i]] + t, j)),
            None => None,
        }
    }
}

/// A decimal digit.
pub open spec fn is_digit(c: char) -> bool {
    48 <= c as u32 && c as u32 <= 57
}

/// Its value.
pub open spec fn digit_val(c: char) -> int {
    c as u32 - 48
}

/// Consumes digits, accumulating left to right; fails on a value that
/// does not fit in a `u32`.
pub open spec fn sp_digits(s: Seq<char>, i: int, acc: u32) -> Option<(u32, int)>
    decreases s.len() - i,
{
    if i < 0 || i >= s.len() || !is_digit(s[i]) {
        Some((acc, i))
    } else if acc as int * 10 + digit_val(s[i]) > u32::MAX as int {
        None
    } else {
        sp_digits(s, i + 1, (acc as int * 10 + digit_val(s[i])) as u32)
    }
}

/// Parses a number: at least one digit, value within `u32`.
pub open spec fn sp_num(s: Seq<char>, i: int) -> Option<(u32, int)> {
    if 0 <= i && i < s.len() && is_digit(s[i]) {
        sp_digits(s, i, 0)
    } else {
        None
    }
}

/// Parses a boolean token.
pub open spec fn sp_bool(s: Seq<char>, i: int) -> Option<(bool, int)> {
    match sp_lit(s, i, "true"@) {
        Some(j) => Some((true, j)),
        None => match sp_lit(s, i, "false"@) {
            Some(j) => Some((false, j)),
            None => None,
        },
    }
}

/// Parses one file entry.
pub open spec fn sp_file(s: Seq<char>, i: int) -> Option<(FileModel, int)> {
    match sp_lit(s, i, "{\"name\":\""@) {
        None => None,
        Some(i1) => match sp_str(s, i1) {
            None => None,
            Some((name, i2)) => match sp_lit(s, i2, ",\"data\":\""@) {
                None => None,
                Some(i3) => match sp_str(s, i3) {
                    None => None,
                    Some((data, i4)) => match sp_lit(s, i4, ",\"read_only\":"@) {
                        None => None,
                        Some(i5) => match sp_bool(s, i5) {
                            None => None,
                            Some((ro, i6)) => match sp_lit(s, i6, "}"@) {
                                None => None,
                                Some(i7) => Some(
                                    (FileModel { name, data, read_only: ro }, i7),
                                ),
                            },
                        },
                    },
                },
            },
        },
    }
}

/// Parses one upload message.
pub open spec fn sp_transfer(s: Seq<char>, i: int) -> Option<(TransferModel, int)> {
    match sp_lit(s, i, "{\"Full\":"@) {
        Some(i1) => match sp_file(s, i1) {
            None => None,
            Some((f, i2)) => match sp_lit(s, i2, "}"@) {
                None => None,
                Some(i3) => Some((TransferModel::Full(f), i3)),
            },
        },
        None => match sp_lit(s, i, "{\"Partial\":["@) {
            None => None,
            Some(i1) => match sp_file(s, i1) {
                None => None,
                Some((f, i2)) => match sp_lit(s, i2, ","@) {
                    None => None,
                    Some(i3) => match sp_bool(s, i3) {
                        None => None,
                        Some((done, i4)) => match sp_lit(s, i4, "]}"@) {
                            None => None,
                            Some(i5) => Some((TransferModel::Partial(f, done), i5)),
                        },
                    },
                },
            },
        },
    }
}

/// Parses one packet.
pub open spec fn sp_packet(s: Seq<char>, i: int) -> Option<(PacketModel, int)> {
    match sp_lit(s, i, "\"S2cHb\""@) {
        Some(j) => Some((PacketModel::S2cHb, j)),
        None => match sp_lit(s, i, "\"S2cSync\""@) {
            Some(j) => Some((PacketModel::S2cSync, j)),
            None => match sp_lit(s, i, "\"C2sHb\""@) {
                Some(j) => Some((PacketModel::C2sHb, j)),
                None => match sp_lit(s, i, "\"C2sReady\""@) {
                    Some(j) => Some((PacketModel::C2sReady, j)),
                    None => match sp_lit(s, i, "{\"S2cSyncF\":"@) {
                        Some(i1) => match sp_file(s, i1) {
                            None => None,
                            Some((f, i2)) => match sp_lit(s, i2, "}"@) {
                                None => None,
                                Some(i3) => Some((PacketModel::S2cSyncF(f), i3)),
                            },
                        },
                        None => match sp_lit(s, i, "{\"C2sSync\":"@) {
                            Some(i1) => match sp_transfer(s, i1) {
                                None => None,
                                Some((t, i2)) => match sp_lit(s, i2, "}"@) {
                                    None => None,
                                    Some(i3) => Some((PacketModel::C2sSync(t), i3)),
                                },
                            },
                            None => match sp_lit(s, i, "{\"C2sComp\":"@) {
                                None => None,
                                Some(i1) => match sp_num(s, i1) {
                                    None => None,
                                    Some((id, i2)) => match sp_lit(s, i2, "}"@) {
                                        None => None,
                                        Some(i3) => Some((PacketModel::C2sComp(id), i3)),
                                    },
                                },
                            },
                        },
                    },
                },
            },
        },
    }
}

/// Parses a whole wire document: the packet under the key `p`, with
/// nothing before or after.
pub open spec fn sp_wspacket(s: Seq<char>) -> Option<PacketModel> {
    match sp_lit(s, 0, "{\"p\":"@) {
        None => None,
        Some(i1) => match sp_packet(s, i1) {
            None => None,
            Some((p, i2)) => match sp_lit(s, i2, "}"@) {
                None => None,
                Some(i3) => if i3 == s.len() {
                    Some(p)
                } else {
                    None
                },
            },
        },
    }
}

/// Matches a literal at position `i`.
fn p_lit(v: &Vec<char>, i: usize, lit: &str) -> (r: Option<usize>)
    ensures
        match r {
            Some(j) => sp_lit(v@, i as int, lit@) == Some(j as int) && i <= j <= v.len(),
            None => sp_lit(v@, i as int, lit@) is None,
        },
{
    let n = lit.unicode_len();
    let vn = v.len();
    if i > vn || n > vn - i {
        proof {
            assert(sp_lit(v@, i as int, lit@) is None);
        }
        return None;
    }
    let mut k: usize = 0;
    while k < n
        invariant
            k <= n,
            n == lit@.len(),
            vn == v@.len(),
            i + n <= vn,
            v@.subrange(i as int, i + k as int) =~= lit@.subrange(0, k as int),
        decreases n - k,
    {
        if v[i + k] != lit.get_char(k) {
            proof {
                assert(v@.subrange(i as int, i + n as int)[k as int] != lit@[k as int]);
            }
            return None;
        }
        proof {
            assert(v@.subrange(i as int, i + (k + 1) as int) =~= lit@.subrange(0, k + 1 as int));
        }
        k += 1;
    }
    proof {
        assert(v@.subrange(i as int, i + n as int) =~= lit@);
    }
    Some(i + n)
}

/// Parses a string body.
fn p_str(v: &Vec<char>, i: usize) -> (r: Option<(String, usize)>)
    ensures
        match r {
            Some(t) => sp_str(v@, i as int) == Some((t.0@, t.1 as int)) && t.1 <= v.len(),
            None => sp_str(v@, i as int) is None,
        },
{
    let ghost s = v@;
    let mut acc = String::new();
    let mut k: usize = i;
    loop
        invariant
            i <= k,
            s == v@,
            sp_str(s, i as int) == (match sp_str(s, k as int) {
                Some((t, j)) => Some((acc@ + t, j)),
                None => None::<(Seq<char>, int)>,
            }),
        decreases v@.len() - k,
    {
        if k >= v.len() {
            return None;
        }
        let c = v[k];
        if c == '"' {
            proof {
                assert(acc@ + Seq::<char>::empty() =~= acc@);
            }
            return Some((acc, k + 1));
        } else if c == '\\' {
            if k + 1 < v.len() && (v[k + 1] == '"' || v[k + 1] == '\\') {
                let e = v[k + 1];
                let ghost acc0 = acc@;
                push_char(&mut acc, e);
                proof {
                    assert(acc@ =~= acc0.push(e));
                    assert forall|t: Seq<char>, j: int|
                        sp_str(s, k + 2 as int) == Some((t, j)) implies acc0 + (seq![e] + t) == acc@
                        + t by {
                        assert(acc0 + (seq![e] + t) =~= acc@ + t);
                    }
                }
                k += 2;
            } else {
                return None;
            }
        } else {
            let ghost acc0 = acc@;
            push_char(&mut acc, c);
            proof {
                assert(acc@ =~= acc0.push(c));
                assert forall|t: Seq<char>, j: int|
                    sp_str(s, k + 1 as int) == Some((t, j)) implies acc0 + (seq![c] + t) == acc@
                    + t by {
                    assert(acc0 + (seq![c] + t) =~= acc@ + t);
                }
            }
            k += 1;
        }
    }
}

/// Parses digits into an accumulator.
fn p_digits(v: &Vec<char>, i: usize, acc0: u32) -> (r: Option<(u32, usize)>)
    requires
        i <= v.len(),
    ensures
        match r {
            Some(t) => sp_digits(v@, i as int, acc0) == Some((t.0, t.1 as int)) && t.1 <= v.len(),
            None => sp_digits(v@, i as int, acc0) is None,
        },
{
    let mut acc: u32 = acc0;
    let mut k: usize = i;
    loop
        invariant
            i <= k <= v.len(),
            sp_digits(v@, i as int, acc0) == sp_digits(v@, k as int, acc),
        decreases v@.len() - k,
    {
        if k >= v.len() {
            return Some((acc, k));
        }
        let c = v[k];
        let cu = c as u32;
        if cu < 48 || cu > 57 {
            proof {
                assert(!is_digit(v@[k as int]));
                assert(sp_digits(v@, k as int, acc) == Some((acc, k as int)));
            }
            return Some((acc, k));
        }
        let d = cu - 48;
        if acc > 429496729 || (acc == 429496729 && d > 5) {
            proof {
                assert(acc as int * 10 + digit_val(v@[k as int]) > u32::MAX as int);
            }
            return None;
        }
        proof {
            assert(acc as int * 10 + digit_val(v@[k as int]) <= u32::MAX as int);
        }
        acc = acc * 10 + d;
        k += 1;
    }
}

/// Parses a number.
fn p_num(v: &Vec<char>, i: usize) -> (r: Option<(u32, usize)>)
    ensures
        match r {
            Some(t) => sp_num(v@, i as int) == Some((t.0, t.1 as int)) && t.1 <= v.len(),
            None => sp_num(v@, i as int) is None,
        },
{
    if i < v.len() {
        let cu = v[i] as u32;
        if 48 <= cu && cu <= 57 {
            p_digits(v, i, 0)
        } else {
            None
        }
    } else {
        None
    }
}

/// Parses a boolean token.
fn p_bool(v: &Vec<char>, i: usize) -> (r: Option<(bool, usize)>)
    ensures
        match r {
            Some(t) => sp_bool(v@, i as int) == Some((t.0, t.1 as int)) && t.1 <= v.len(),
            None => sp_bool(v@, i as int) is None,
        },
{
    match p_lit(v, i, "true") {
        Some(j) => Some((true, j)),
        None => match p_lit(v, i, "false") {
            Some(j) => Some((false, j)),
            None => None,
        },
    }
}

/// Parses one file entry.
fn p_file(v: &Vec<char>, i: usize) -> (r: Option<(CCFsFile, usize)>)
    ensures
        match r {
            Some(t) => sp_file(v@, i as int) == Some((t.0@, t.1 as int)) && t.1 <= v.len(),
            None => sp_file(v@, i as int) is None,
        },
{
    match p_lit(v, i, "{\"name\":\"") {
        None => None,
        Some(i1) => match p_str(v, i1) {
            None => None,
            Some((name, i2)) => match p_lit(v, i2, ",\"data\":\"") {
                None => None,
                Some(i3) => match p_str(v, i3) {
                    None => None,
                    Some((data, i4)) => match p_lit(v, i4, ",\"read_only\":") {
                        None => None,
                        Some(i5) => match p_bool(v, i5) {
                            None => None,
                            Some((ro, i6)) => match p_lit(v, i6, "}") {
                                None => None,
                                Some(i7) => Some(
                                    (CCFsFile { name, data, read_only: ro }, i7),
                                ),
                            },
                        },
                    },
                },
            },
        },
    }
}

/// Parses one upload message.
fn p_transfer(v: &Vec<char>, i: usize) -> (r: Option<(CCFile, usize)>)
    ensures
        match r {
            Some(t) => sp_transfer(v@, i as int) == Some((t.0@, t.1 as int)) && t.1 <= v.len(),
            None => sp_transfer(v@, i as int) is None,
        },
{
    match p_lit(v, i, "{\"Full\":") {
        Some(i1) => match p_file(v, i1) {
            None => None,
            Some((f, i2)) => match p_lit(v, i2, "}") {
                None => None,
                Some(i3) => Some((CCFile::Full(f), i3)),
            },
        },
        None => match p_lit(v, i, "{\"Partial\":[") {
            None => None,
            Some(i1) => match p_file(v, i1) {
                None => None,
                Some((f, i2)) => match p_lit(v, i2, ",") {
                    None => None,
                    Some(i3) => match p_bool(v, i3) {
                        None => None,
                        Some((done, i4)) => match p_lit(v, i4, "]}") {
                            None => None,
                            Some(i5) => Some((CCFile::Partial(CCPartialFile(f, done)), i5)),
                        },
                    },
                },
            },
        },
    }
}

/// Parses one packet.
fn p_packet(v: &Vec<char>, i: usize) -> (r: Option<(PacketTypes, usize)>)
    ensures
        match r {
            Some(t) => sp_packet(v@, i as int) == Some((t.0@, t.1 as int)) && t.1 <= v.len(),
            None => sp_packet(v@, i as int) is None,
        },
{
    match p_lit(v, i, "\"S2cHb\"") {
        Some(j) => Some((PacketTypes::S2cHb, j)),
        None => match p_lit(v, i, "\"S2cSync\"") {
            Some(j) => Some((PacketTypes::S2cSync, j)),
            None => match p_lit(v, i, "\"C2sHb\"") {
                Some(j) => Some((PacketTypes::C2sHb, j)),
                None => match p_lit(v, i, "\"C2sReady\"") {
                    Some(j) => Some((PacketTypes::C2sReady, j)),
                    None => match p_lit(v, i, "{\"S2cSyncF\":") {
                        Some(i1) => match p_file(v, i1) {
                            None => None,
                            Some((f, i2)) => match p_lit(v, i2, "}") {
                                None => None,
                                Some(i3) => Some((PacketTypes::S2cSyncF(f), i3)),
                            },
                        },
                        None => match p_lit(v, i, "{\"C2sSync\":") {
                            Some(i1) => match p_transfer(v, i1) {
                                None => None,
                                Some((t, i2)) => match p_lit(v, i2, "}") {
                                    None => None,
                                    Some(i3) => Some((PacketTypes::C2sSync(t), i3)),
                                },
                            },
                            None => match p_lit(v, i, "{\"C2sComp\":") {
                                None => None,
                                Some(i1) => match p_num(v, i1) {
                                    None => None,
                                    Some((id, i2)) => match p_lit(v, i2, "}") {
                                        None => None,
                                        Some(i3) => Some((PacketTypes::C2sComp(id), i3)),
                                    },
                                },
                            },
                        },
                    },
                },
            },
        },
    }
}

// ---------------------------------------------------------------------
// The parser inverts the renderer: parsing a rendered document yields
// the packet it was rendered from.

/// Escaping distributes over taking the first character.
proof fn lemma_esc_str_cons(c: char, t: Seq<char>)
    ensures
        esc_str(seq![c] + t) == esc_char(c) + esc_str(t),
    decreases t.len(),
{
    reveal_with_fuel(esc_str, 3);
    let u = seq![c] + t;
    if t.len() == 0 {
        assert(u.drop_last() =~= Seq::<char>::empty());
        assert(u.last() == c);
        assert(esc_str(u) =~= esc_char(c) + esc_str(t));
    } else {
        assert(u.drop_last() =~= seq![c] + t.drop_last());
        assert(u.last() == t.last());
        lemma_esc_str_cons(c, t.drop_last());
        assert(esc_str(u) == (esc_char(c) + esc_str(t.drop_last())) + esc_char(t.last()));
        assert((esc_char(c) + esc_str(t.drop_last())) + esc_char(t.last()) =~= esc_char(c) + (
        esc_str(t.drop_last()) + esc_char(t.last())));
        assert(esc_str(t) == esc_str(t.drop_last()) + esc_char(t.last()));
    }
}

/// Parsing a string body over the escaped rendering of `x`, followed by
/// the closing quote, yields `x` and stops just past the quote.
proof fn lemma_sp_str_esc(s: Seq<char>, i: int, x: Seq<char>)
    requires
        0 <= i,
        i + esc_str(x).len() + 1 <= s.len(),
        s.subrange(i, i + esc_str(x).len() + 1) == esc_str(x).push('"'),
    ensures
        sp_str(s, i) == Some((x, i + esc_str(x).len() + 1)),
    decreases x.len(),
{
    reveal_with_fuel(esc_str, 2);
    reveal_with_fuel(sp_str, 2);
    let region = esc_str(x).push('"');
    if x.len() == 0 {
        assert(s[i] == region[0]);
        assert(s[i] == '"');
    } else {
        let c = x[0];
        let t = x.drop_first();
        assert(x =~= seq![c] + t);
        lemma_esc_str_cons(c, t);
        assert(esc_str(x) == esc_char(c) + esc_str(t));
        let et = esc_str(t);
        if c == '"' || c == '\\' {
            assert(esc_char(c) =~= seq!['\\', c]);
            assert(s[i] == region[0]);
            assert(s[i] == '\\');
            assert(s[i + 1] == region[1]);
            assert(s[i + 1] == c);
            assert(s.subrange(i + 2, i + 2 + et.len() + 1) =~= et.push('"')) by {
                assert forall|q: int| 0 <= q < et.len() + 1 implies s[i + 2 + q] == et.push('"')[q]
                    by {
                    assert(s[i + 2 + q] == region[2 + q]);
                }
            }
            lemma_sp_str_esc(s, i + 2, t);
            assert(sp_str(s, i) == Some((seq![c] + t, i + 2 + et.len() + 1)));
            assert(seq![c] + t =~= x);
        } else {
            assert(esc_char(c) =~= seq![c]);
            assert(s[i] == region[0]);
            assert(s[i] == c);
            assert(s[i] != '"' && s[i] != '\\');
            assert(s.subrange(i + 1, i + 1 + et.len() + 1) =~= et.push('"')) by {
                assert forall|q: int| 0 <= q < et.len() + 1 implies s[i + 1 + q] == et.push('"')[q]
                    by {
                    assert(s[i + 1 + q] == region[1 + q]);
                }
            }
            lemma_sp_str_esc(s, i + 1, t);
            assert(sp_str(s, i) == Some((seq![c] + t, i + 1 + et.len() + 1)));
            assert(seq![c] + t =~= x);
        }
    }
}

/// Ten to the `k`.
spec fn pow10(k: nat) -> int
    decreases k,
{
    if k == 0 {
        1
    } else {
        10 * pow10((k - 1) as nat)
    }
}

/// Every character is a digit.
spec fn digits_ok(r: Seq<char>) -> bool {
    forall|q: int| 0 <= q < r.len() ==> is_digit(#[trigger] r[q])
}

/// The value of a digit string, most significant first.
spec fn digits_val(r: Seq<char>) -> int
    decreases r.len(),
{
    if r.len() == 0 {
        0
    } else {
        digits_val(r.drop_last()) * 10 + digit_val(r.last())
    }
}

proof fn lemma_pow10_pos(k: nat)
    ensures
        pow10(k) >= 1,
    decreases k,
{
    if k > 0 {
        lemma_pow10_pos((k - 1) as nat);
    }
}

proof fn lemma_digits_val_nonneg(r: Seq<char>)
    requires
        digits_ok(r),
    ensures
        digits_val(r) >= 0,
    decreases r.len(),
{
    if r.len() > 0 {
        assert forall|q: int| 0 <= q < r.drop_last().len() implies is_digit(
            #[trigger] r.drop_last()[q],
        ) by {
            assert(r.drop_last()[q] == r[q]);
        }
        lemma_digits_val_nonneg(r.drop_last());
    }
}

/// The value of a digit string with one more leading digit.
proof fn lemma_digits_val_cons(d: char, r: Seq<char>)
    requires
        is_digit(d),
        digits_ok(r),
    ensures
        digits_val(seq![d] + r) == digit_val(d) * pow10(r.len()) + digits_val(r),
    decreases r.len(),
{
    reveal_with_fuel(digits_val, 3);
    let u = seq![d] + r;
    if r.len() == 0 {
        assert(u.drop_last() =~= Seq::<char>::empty());
        assert(u.last() == d);
        assert(digits_val(u) == digit_val(d));
        assert(digit_val(d) * pow10(0) + digits_val(r) == digit_val(d)) by (nonlinear_arith)
            requires
                pow10(0) == 1,
                digits_val(r) == 0,
        ;
    } else {
        assert(u.drop_last() =~= seq![d] + r.drop_last());
        assert(u.last() == r.last());
        assert forall|q: int| 0 <= q < r.drop_last().len() implies is_digit(
            #[trigger] r.drop_last()[q],
        ) by {
            assert(r.drop_last()[q] == r[q]);
        }
        lemma_digits_val_cons(d, r.drop_last());
        let k = r.drop_last().len();
        assert(digits_val(u) == (digit_val(d) * pow10(k) + digits_val(r.drop_last())) * 10
            + digit_val(r.last()));
        assert(pow10(r.len()) == 10 * pow10(k));
        assert((digit_val(d) * pow10(k) + digits_val(r.drop_last())) * 10 + digit_val(r.last())
            == digit_val(d) * (10 * pow10(k)) + (digits_val(r.drop_last()) * 10 + digit_val(
            r.last(),
        ))) by (nonlinear_arith);
        assert(digits_val(r) == digits_val(r.drop_last()) * 10 + digit_val(r.last()));
    }
}

/// Parsing a run of digits accumulates its value onto `acc`.
proof fn lemma_sp_digits_region(s: Seq<char>, i: int, r: Seq<char>, acc: u32)
    requires
        0 <= i,
        i + r.len() <= s.len(),
        digits_ok(r),
        s.subrange(i, i + r.len()) == r,
        i + r.len() == s.len() || !is_digit(s[i + r.len()]),
        acc as int * pow10(r.len()) + digits_val(r) <= u32::MAX as int,
    ensures
        sp_digits(s, i, acc) == Some(
            (((acc as int * pow10(r.len()) + digits_val(r)) as u32), i + r.len()),
        ),
    decreases r.len(),
{
    reveal_with_fuel(sp_digits, 2);
    lemma_digits_val_nonneg(r);
    lemma_pow10_pos(r.len());
    if r.len() == 0 {
        assert(acc as int * pow10(0) + digits_val(r) == acc as int) by (nonlinear_arith)
            requires
                pow10(0) == 1,
                digits_val(r) == 0,
        ;
    } else {
        let d = r[0];
        let rest = r.drop_first();
        assert(r =~= seq![d] + rest);
        assert(s[i] == s.subrange(i, i + r.len())[0]);
        assert(s[i] == d);
        assert(is_digit(d));
        let dv = digit_val(d);
        assert(0 <= dv <= 9);
        assert forall|q: int| 0 <= q < rest.len() implies is_digit(#[trigger] rest[q]) by {
            assert(rest[q] == r[q + 1]);
        }
        lemma_digits_val_cons(d, rest);
        lemma_digits_val_nonneg(rest);
        lemma_pow10_pos(rest.len());
        let acc1 = acc as int * 10 + dv;
        let total = acc as int * pow10(r.len()) + digits_val(r);
        assert(pow10(r.len()) == 10 * pow10(rest.len()));
        assert(acc1 * pow10(rest.len()) + digits_val(rest) == total) by (nonlinear_arith)
            requires
                acc1 == acc as int * 10 + dv,
                total == acc as int * pow10(r.len()) + digits_val(r),
                pow10(r.len()) == 10 * pow10(rest.len()),
                digits_val(r) == dv * pow10(rest.len()) + digits_val(rest),
        ;
        assert(acc1 <= acc1 * pow10(rest.len()) + digits_val(rest)) by (nonlinear_arith)
            requires
                acc1 >= 0,
                pow10(rest.len()) >= 1,
                digits_val(rest) >= 0,
        ;
        assert(acc1 <= u32::MAX as int);
        assert(s.subrange(i + 1, i + 1 + rest.len()) =~= rest) by {
            assert forall|q: int| 0 <= q < rest.len() implies s[i + 1 + q] == rest[q] by {
                assert(s[i + 1 + q] == s.subrange(i, i + r.len())[1 + q]);
            }
        }
        lemma_sp_digits_region(s, i + 1, rest, acc1 as u32);
    }
}

/// The decimal rendering of `n` is a digit string whose value is `n`.
proof fn lemma_dec_digits(n: nat)
    ensures
        dec_nat(n).len() >= 1,
        digits_ok(dec_nat(n)),
        digits_val(dec_nat(n)) == n,
    decreases n,
{
    reveal_with_fuel(digits_val, 2);
    if n < 10 {
        assert(is_digit(digit_char(n)));
        assert(digit_val(digit_char(n)) == n);
        assert(dec_nat(n) =~= seq![digit_char(n)]);
        assert(dec_nat(n).drop_last() =~= Seq::<char>::empty());
        assert(digits_val(dec_nat(n)) == n);
    } else {
        lemma_dec_digits(n / 10);
        let pre = dec_nat(n / 10);
        let u = dec_nat(n);
        assert(u.drop_last() =~= pre);
        assert(u.last() == digit_char(n % 10));
        assert(is_digit(digit_char(n % 10)));
        assert(digit_val(digit_char(n % 10)) == n % 10);
        assert(digits_val(u) == digits_val(pre) * 10 + (n % 10));
        assert((n / 10) * 10 + (n % 10) == n) by (nonlinear_arith);
        assert forall|q: int| 0 <= q < u.len() implies is_digit(#[trigger] u[q]) by {
            if q < pre.len() {
                assert(u[q] == pre[q]);
            }
        }
    }
}

/// Parsing a number over the decimal rendering of `n`, followed by a
/// non-digit, yields `n`.
proof fn lemma_sp_num_dec(s: Seq<char>, i: int, n: u32)
    requires
        0 <= i,
        i + dec_nat(n as nat).len() <= s.len(),
        s.subrange(i, i + dec_nat(n as nat).len()) == dec_nat(n as nat),
        i + dec_nat(n as nat).len() == s.len() || !is_digit(s[i + dec_nat(n as nat).len()]),
    ensures
        sp_num(s, i) == Some((n, i + dec_nat(n as nat).len())),
{
    lemma_dec_digits(n as nat);
    let r = dec_nat(n as nat);
    assert(s[i] == s.subrange(i, i + r.len())[0]);
    assert(is_digit(s[i]));
    lemma_pow10_pos(r.len());
    assert(0 as int * pow10(r.len()) + digits_val(r) == n as int) by (nonlinear_arith)
        requires
            digits_val(r) == n as int,
    ;
    lemma_sp_digits_region(s, i, r, 0);
}

/// A literal that stands at `i` matches there.
proof fn lemma_sp_lit_at(s: Seq<char>, i: int, lit: Seq<char>)
    requires
        0 <= i,
        i + lit.len() <= s.len(),
        s.subrange(i, i + lit.len()) == lit,
    ensures
        sp_lit(s, i, lit) == Some(i + lit.len()),
{
}

/// A literal that differs from the text at some position fails.
proof fn lemma_sp_lit_differs(s: Seq<char>, i: int, lit: Seq<char>, q: int)
    requires
        0 <= q < lit.len(),
        0 <= i,
        i + q < s.len(),
        s[i + q] != lit[q],
    ensures
        sp_lit(s, i, lit) is None,
{
    if i + lit.len() <= s.len() {
        assert(s.subrange(i, i + lit.len())[q] != lit[q]);
    }
}

/// A piece of a matched region is itself matched, at its offset.
proof fn lemma_subregion(s: Seq<char>, i: int, whole: Seq<char>, o: int, piece: Seq<char>)
    requires
        0 <= i,
        i + whole.len() <= s.len(),
        s.subrange(i, i + whole.len()) == whole,
        0 <= o,
        o + piece.len() <= whole.len(),
        whole.subrange(o, o + piece.len()) == piece,
    ensures
        s.subrange(i + o, i + o + piece.len()) == piece,
{
    assert forall|q: int| 0 <= q < piece.len() implies s.subrange(i + o, i + o + piece.len())[q]
        == piece[q] by {
        assert(s[i + o + q] == s.subrange(i, i + whole.len())[o + q]);
        assert(whole[o + q] == whole.subrange(o, o + piece.len())[q]);
    }
    assert(s.subrange(i + o, i + o + piece.len()) =~= piece);
}

/// Parsing a boolean over its rendering yields it back.
proof fn lemma_parse_bool(s: Seq<char>, i: int, b: bool)
    requires
        0 <= i,
        i + json_bool(b).len() <= s.len(),
        s.subrange(i, i + json_bool(b).len()) == json_bool(b),
    ensures
        sp_bool(s, i) == Some((b, i + json_bool(b).len())),
{
    reveal_strlit("true");
    reveal_strlit("false");
    if b {
        lemma_sp_lit_at(s, i, "true"@);
    } else {
        assert(s[i] == json_bool(b)[0]);
        lemma_sp_lit_differs(s, i, "true"@, 0);
        lemma_sp_lit_at(s, i, "false"@);
    }
}

/// Parsing a file entry over its rendering yields it back.
#[verifier::rlimit(80)]
proof fn lemma_parse_file(s: Seq<char>, i: int, f: FileModel)
    requires
        0 <= i,
        i + json_of_file(f).len() <= s.len(),
        s.subrange(i, i + json_of_file(f).len()) == json_of_file(f),
    ensures
        sp_file(s, i) == Some((f, i + json_of_file(f).len())),
{
    reveal_strlit("{\"name\":");
    reveal_strlit("{\"name\":\"");
    reveal_strlit(",\"data\":");
    reveal_strlit(",\"data\":\"");
    reveal_strlit(",\"read_only\":");
    reveal_strlit("}");
    let j = json_of_file(f);
    let en = esc_str(f.name);
    let ed = esc_str(f.data);
    let jb = json_bool(f.read_only);
    // The same rendering, cut where the parser cuts: the opening quote of
    // each string token joins the literal before it, the closing quote
    // joins the escaped characters.
    let cut = "{\"name\":\""@ + (en.push('"')) + (",\"data\":\""@ + (ed.push('"')) + (
    ",\"read_only\":"@ + (jb + "}"@)));
    assert(j =~= cut);
    let o1: int = 9;
    let o2 = o1 + en.len() + 1;
    let o3 = o2 + 9;
    let o4 = o3 + ed.len() + 1;
    let o5 = o4 + 13;
    let o6 = o5 + jb.len();
    assert(j.subrange(0, o1) =~= "{\"name\":\""@);
    lemma_subregion(s, i, j, 0, "{\"name\":\""@);
    lemma_sp_lit_at(s, i, "{\"name\":\""@);
    assert(j.subrange(o1, o2) =~= en.push('"'));
    lemma_subregion(s, i, j, o1, en.push('"'));
    lemma_sp_str_esc(s, i + o1, f.name);
    assert(j.subrange(o2, o3) =~= ",\"data\":\""@);
    lemma_subregion(s, i, j, o2, ",\"data\":\""@);
    lemma_sp_lit_at(s, i + o2, ",\"data\":\""@);
    assert(j.subrange(o3, o4) =~= ed.push('"'));
    lemma_subregion(s, i, j, o3, ed.push('"'));
    lemma_sp_str_esc(s, i + o3, f.data);
    assert(j.subrange(o4, o5) =~= ",\"read_only\":"@);
    lemma_subregion(s, i, j, o4, ",\"read_only\":"@);
    lemma_sp_lit_at(s, i + o4, ",\"read_only\":"@);
    assert(j.subrange(o5, o6) =~= jb);
    lemma_subregion(s, i, j, o5, jb);
    lemma_parse_bool(s, i + o5, f.read_only);
    assert(j.subrange(o6, o6 + 1) =~= "}"@);
    lemma_subregion(s, i, j, o6, "}"@);
    lemma_sp_lit_at(s, i + o6, "}"@);
    assert(f == (FileModel { name: f.name, data: f.data, read_only: f.read_only }));
}

/// Parsing an upload message over its rendering yields it back.
#[verifier::rlimit(80)]
proof fn lemma_parse_transfer(s: Seq<char>, i: int, t: TransferModel)
    requires
        0 <= i,
        i + json_of_transfer(t).len() <= s.len(),
        s.subrange(i, i + json_of_transfer(t).len()) == json_of_transfer(t),
    ensures
        sp_transfer(s, i) == Some((t, i + json_of_transfer(t).len())),
{
    reveal_strlit("{\"Full\":");
    reveal_strlit("{\"Partial\":[");
    reveal_strlit(",");
    reveal_strlit("]}");
    reveal_strlit("}");
    let j = json_of_transfer(t);
    match t {
        TransferModel::Full(f) => {
            let jf = json_of_file(f);
            assert(j.subrange(0, 8) =~= "{\"Full\":"@);
            lemma_subregion(s, i, j, 0, "{\"Full\":"@);
            lemma_sp_lit_at(s, i, "{\"Full\":"@);
            assert(j.subrange(8, 8 + jf.len() as int) =~= jf);
            lemma_subregion(s, i, j, 8, jf);
            lemma_parse_file(s, i + 8, f);
            assert(j.subrange(8 + jf.len() as int, 9 + jf.len() as int) =~= "}"@);
            lemma_subregion(s, i, j, 8 + jf.len() as int, "}"@);
            lemma_sp_lit_at(s, i + 8 + jf.len() as int, "}"@);
        },
        TransferModel::Partial(f, done) => {
            let jf = json_of_file(f);
            let jb = json_bool(done);
            assert(s[i + 2] == s.subrange(i, i + j.len())[2]);
            assert(s[i + 2] == 'P');
            lemma_sp_lit_differs(s, i, "{\"Full\":"@, 2);
            assert(j.subrange(0, 12) =~= "{\"Partial\":["@);
            lemma_subregion(s, i, j, 0, "{\"Partial\":["@);
            lemma_sp_lit_at(s, i, "{\"Partial\":["@);
            let o1: int = 12;
            let o2 = o1 + jf.len() as int;
            let o3 = o2 + 1;
            let o4 = o3 + jb.len();
            assert(j.subrange(o1, o2) =~= jf);
            lemma_subregion(s, i, j, o1, jf);
            lemma_parse_file(s, i + o1, f);
            assert(j.subrange(o2, o3) =~= ","@);
            lemma_subregion(s, i, j, o2, ","@);
            lemma_sp_lit_at(s, i + o2, ","@);
            assert(j.subrange(o3, o4) =~= jb);
            lemma_subregion(s, i, j, o3, jb);
            lemma_parse_bool(s, i + o3, done);
            assert(j.subrange(o4, o4 + 2) =~= "]}"@);
            lemma_subregion(s, i, j, o4, "]}"@);
            lemma_sp_lit_at(s, i + o4, "]}"@);
        },
    }
}

/// Parsing a packet over its rendering yields it back.
#[verifier::rlimit(80)]
proof fn lemma_parse_packet(s: Seq<char>, i: int, m: PacketModel)
    requires
        0 <= i,
        i + json_of_packet(m).len() <= s.len(),
        s.subrange(i, i + json_of_packet(m).len()) == json_of_packet(m),
    ensures
        sp_packet(s, i) == Some((m, i + json_of_packet(m).len())),
{
    reveal_strlit("\"S2cHb\"");
    reveal_strlit("\"S2cSync\"");
    reveal_strlit("\"C2sHb\"");
    reveal_strlit("\"C2sReady\"");
    reveal_strlit("{\"S2cSyncF\":");
    reveal_strlit("{\"C2sSync\":");
    reveal_strlit("{\"C2sComp\":");
    reveal_strlit("}");
    let j = json_of_packet(m);
    match m {
        PacketModel::S2cHb => {
            lemma_sp_lit_at(s, i, "\"S2cHb\""@);
        },
        PacketModel::S2cSync => {
            assert(s[i + 4] == s.subrange(i, i + j.len())[4]);
            lemma_sp_lit_differs(s, i, "\"S2cHb\""@, 4);
            lemma_sp_lit_at(s, i, "\"S2cSync\""@);
        },
        PacketModel::C2sHb => {
            assert(s[i + 1] == s.subrange(i, i + j.len())[1]);
            lemma_sp_lit_differs(s, i, "\"S2cHb\""@, 1);
            lemma_sp_lit_differs(s, i, "\"S2cSync\""@, 1);
            lemma_sp_lit_at(s, i, "\"C2sHb\""@);
        },
        PacketModel::C2sReady => {
            assert(s[i + 1] == s.subrange(i, i + j.len())[1]);
            assert(s[i + 4] == s.subrange(i, i + j.len())[4]);
            lemma_sp_lit_differs(s, i, "\"S2cHb\""@, 1);
            lemma_sp_lit_differs(s, i, "\"S2cSync\""@, 1);
            lemma_sp_lit_differs(s, i, "\"C2sHb\""@, 4);
            lemma_sp_lit_at(s, i, "\"C2sReady\""@);
        },
        PacketModel::S2cSyncF(f) => {
            let jf = json_of_file(f);
            assert(s[i] == s.subrange(i, i + j.len())[0]);
            lemma_sp_lit_differs(s, i, "\"S2cHb\""@, 0);
            lemma_sp_lit_differs(s, i, "\"S2cSync\""@, 0);
            lemma_sp_lit_differs(s, i, "\"C2sHb\""@, 0);
            lemma_sp_lit_differs(s, i, "\"C2sReady\""@, 0);
            assert(j.subrange(0, 12) =~= "{\"S2cSyncF\":"@);
            lemma_subregion(s, i, j, 0, "{\"S2cSyncF\":"@);
            lemma_sp_lit_at(s, i, "{\"S2cSyncF\":"@);
            assert(j.subrange(12, 12 + jf.len() as int) =~= jf);
            lemma_subregion(s, i, j, 12, jf);
            lemma_parse_file(s, i + 12, f);
            assert(j.subrange(12 + jf.len() as int, 13 + jf.len() as int) =~= "}"@);
            lemma_subregion(s, i, j, 12 + jf.len() as int, "}"@);
            lemma_sp_lit_at(s, i + 12 + jf.len() as int, "}"@);
        },
        PacketModel::C2sSync(t) => {
            let jt = json_of_transfer(t);
            assert(s[i] == s.subrange(i, i + j.len())[0]);
            assert(s[i + 2] == s.subrange(i, i + j.len())[2]);
            lemma_sp_lit_differs(s, i, "\"S2cHb\""@, 0);
            lemma_sp_lit_differs(s, i, "\"S2cSync\""@, 0);
            lemma_sp_lit_differs(s, i, "\"C2sHb\""@, 0);
            lemma_sp_lit_differs(s, i, "\"C2sReady\""@, 0);
            lemma_sp_lit_differs(s, i, "{\"S2cSyncF\":"@, 2);
            assert(j.subrange(0, 11) =~= "{\"C2sSync\":"@);
            lemma_subregion(s, i, j, 0, "{\"C2sSync\":"@);
            lemma_sp_lit_at(s, i, "{\"C2sSync\":"@);
            assert(j.subrange(11, 11 + jt.len() as int) =~= jt);
            lemma_subregion(s, i, j, 11, jt);
            lemma_parse_transfer(s, i + 11, t);
            assert(j.subrange(11 + jt.len() as int, 12 + jt.len() as int) =~= "}"@);
            lemma_subregion(s, i, j, 11 + jt.len() as int, "}"@);
            lemma_sp_lit_at(s, i + 11 + jt.len() as int, "}"@);
        },
        PacketModel::C2sComp(id) => {
            let jd = dec_nat(id as nat);
            assert(s[i] == s.subrange(i, i + j.len())[0]);
            assert(s[i + 2] == s.subrange(i, i + j.len())[2]);
            assert(s[i + 5] == s.subrange(i, i + j.len())[5]);
            lemma_sp_lit_differs(s, i, "\"S2cHb\""@, 0);
            lemma_sp_lit_differs(s, i, "\"S2cSync\""@, 0);
            lemma_sp_lit_differs(s, i, "\"C2sHb\""@, 0);
            lemma_sp_lit_differs(s, i, "\"C2sReady\""@, 0);
            lemma_sp_lit_differs(s, i, "{\"S2cSyncF\":"@, 2);
            lemma_sp_lit_differs(s, i, "{\"C2sSync\":"@, 5);
            assert(j.subrange(0, 11) =~= "{\"C2sComp\":"@);
            lemma_subregion(s, i, j, 0, "{\"C2sComp\":"@);
            lemma_sp_lit_at(s, i, "{\"C2sComp\":"@);
            assert(j.subrange(11, 11 + jd.len() as int) =~= jd);
            lemma_subregion(s, i, j, 11, jd);
            assert(s[i + 11 + jd.len() as int] == s.subrange(i, i + j.len())[11 + jd.len() as int]);
            assert(s[i + 11 + jd.len() as int] == '}');
            assert(!is_digit('}'));
            lemma_sp_num_dec(s, i + 11, id);
            assert(j.subrange(11 + jd.len() as int, 12 + jd.len() as int) =~= "}"@);
            lemma_subregion(s, i, j, 11 + jd.len() as int, "}"@);
            lemma_sp_lit_at(s, i + 11 + jd.len() as int, "}"@);
        },
    }
}

/// The parser inverts the renderer: the canonical rendering of any
/// packet parses back to exactly that packet.
pub proof fn lemma_parse_of_rendered(m: PacketModel)
    ensures
        sp_wspacket(json_of_wspacket(m)) == Some(m),
{
    reveal_strlit("{\"p\":");
    reveal_strlit("}");
    let s = json_of_wspacket(m);
    let jp = json_of_packet(m);
    assert(s.subrange(0, s.len() as int) =~= s);
    assert(s.subrange(0, 5) =~= "{\"p\":"@);
    lemma_sp_lit_at(s, 0, "{\"p\":"@);
    assert(s.subrange(5, 5 + jp.len() as int) =~= jp);
    lemma_parse_packet(s, 5, m);
    assert(s.subrange(5 + jp.len() as int, 6 + jp.len() as int) =~= "}"@);
    lemma_sp_lit_at(s, 5 + jp.len() as int, "}"@);
    assert(6 + jp.len() as int == s.len());
}

/// Parses a whole wire document.
pub fn parse_wspacket(v: &Vec<char>) -> (r: Option<WsPacket>)
    ensures
        match r {
            Some(p) => sp_wspacket(v@) == Some(p@),
            None => sp_wspacket(v@) is None,
        },
{
    match p_lit(v, 0, "{\"p\":") {
        None => None,
        Some(i1) => match p_packet(v, i1) {
            None => None,
            Some((p, i2)) => match p_lit(v, i2, "}") {
                None => None,
                Some(i3) => if i3 == v.len() {
                    Some(WsPacket { packet: p })
                } else {
                    None
                },
            },
        },
    }
}

} // verus!
