//! Tokens for authenticating to the local gateway.
use vstd::prelude::*;
use crate::command::{digits, decimal_string, CommandOutput, CommandSpec};
use crate::text::{chars_of, concat2, concat3, string_of, string_views, trim, trim_chars};

verus! {

/// How many random bytes a gateway token is made of.
pub const TOKEN_BYTES: usize = 32;

/// The lower-case hexadecimal digit for `n` (`0 <= n < 16`).
pub open spec fn hex_digit(n: int) -> char {
    seq!['0', '1', '2', '3', '4', '5', '6', '7', '8', '9', 'a', 'b', 'c', 'd', 'e', 'f'][n]
}

/// A character that `char::is_ascii_hexdigit` accepts.
pub open spec fn is_ascii_hexdigit(c: char) -> bool {
    ('0' <= c && c <= '9') || ('a' <= c && c <= 'f') || ('A' <= c && c <= 'F')
}

/// Each byte as two lower-case hexadecimal digits, high digit first
/// (`format!("{:02x}", byte)` for each byte).
pub open spec fn hex(bytes: Seq<u8>) -> Seq<char>
    decreases bytes.len(),
{
    if bytes.len() == 0 {
        seq![]
    } else {
        seq![hex_digit((bytes[0] / 16) as int), hex_digit((bytes[0] % 16) as int)] + hex(bytes.drop_first())
    }
}

/// The token made from the random bytes `bytes`: `ocm-` and their hex digits.
pub open spec fn token_of(bytes: Seq<u8>) -> Seq<char> {
    seq!['o', 'c', 'm', '-'] + hex(bytes)
}

fn hex_digit_exec(n: u8) -> (res: char)
    requires
        n < 16,
    ensures
        res == hex_digit(n as int),
{
    let digits: [char; 16] = [
        '0',
        '1',
        '2',
        '3',
        '4',
        '5',
        '6',
        '7',
        '8',
        '9',
        'a',
        'b',
        'c',
        'd',
        'e',
        'f',
    ];
    assert(digits@ =~= seq![
        '0',
        '1',
        '2',
        '3',
        '4',
        '5',
        '6',
        '7',
        '8',
        '9',
        'a',
        'b',
        'c',
        'd',
        'e',
        'f',
    ]);
    digits[n as usize]
}

/// The hex text of `bytes` has two digits per byte, each a hex digit.
pub proof fn lemma_hex_shape(bytes: Seq<u8>)
    ensures
        hex(bytes).len() == 2 * bytes.len(),
        forall|i: int| 0 <= i < hex(bytes).len() ==> is_ascii_hexdigit(#[trigger] hex(bytes)[i]),
    decreases bytes.len(),
{
    if bytes.len() > 0 {
        lemma_hex_shape(bytes.drop_first());
        let h = seq![hex_digit((bytes[0] / 16) as int), hex_digit((bytes[0] % 16) as int)];
        let r = hex(bytes.drop_first());
        assert forall|i: int| 0 <= i < hex(bytes).len() implies is_ascii_hexdigit(
            #[trigger] hex(bytes)[i],
        ) by {
            if i >= 2 {
                assert(hex(bytes)[i] == r[i - 2]);
            } else {
                let d = if i == 0 { bytes[0] / 16 } else { bytes[0] % 16 };
                assert(0 <= d < 16);
                assert(hex(bytes)[i] == hex_digit(d as int));
            }
        }
    }
}

/// The bytes as lower-case hexadecimal text, two digits per byte.
pub fn to_hex(bytes: &[u8]) -> (res: String)
    ensures
        res@ == hex(bytes@),
        res@.len() == 2 * bytes@.len(),
        forall|i: int| 0 <= i < res@.len() ==> is_ascii_hexdigit(#[trigger] res@[i]),
{
    let mut out: Vec<char> = Vec::new();
    let mut i: usize = 0;
    assert(bytes@.skip(0) =~= bytes@);
    while i < bytes.len()
        invariant
            i <= bytes.len(),
            hex(bytes@) == out@ + hex(bytes@.skip(i as int)),
        decreases bytes.len() - i,
    {
        let b = bytes[i];
        assert(bytes@.skip(i as int)[0] == b);
        assert(bytes@.skip(i as int).drop_first() =~= bytes@.skip(i + 1));
        let ghost before = out@;
        out.push(hex_digit_exec(b / 16));
        out.push(hex_digit_exec(b % 16));
        assert(before + (seq![hex_digit((b / 16) as int), hex_digit((b % 16) as int)] + hex(bytes@.skip(i + 1)))
            =~= out@ + hex(bytes@.skip(i + 1)));
        i = i + 1;
    }
    assert(bytes@.skip(bytes.len() as int) =~= Seq::<u8>::empty());
    assert(out@ + hex(Seq::<u8>::empty()) =~= out@);
    proof {
        lemma_hex_shape(bytes@);
    }
    string_of(&out)
}


// ---------------------------------------------------------------------------
// The Windows random source
// ---------------------------------------------------------------------------

/// The PowerShell expression before the number of bytes.
pub const WINDOWS_RANDOM_HEAD: &'static str = "[Convert]::ToHexString([System.Security.Cryptography.RandomNumberGenerator]::GetBytes(";

/// The PowerShell expression after the number of bytes.
pub const WINDOWS_RANDOM_TAIL: &'static str = ")).ToLowerInvariant()";

/// The message when PowerShell could not be started.
pub const WINDOWS_RANDOM_CALL_FAILED: &'static str = "调用 Windows 随机源失败: ";

/// The message when PowerShell printed something other than the bytes.
pub const WINDOWS_RANDOM_INVALID: &'static str = "Windows 随机源返回了无效数据";

/// The PowerShell command that prints `len` random bytes in hex, with no
/// change to its environment.
pub fn windows_random_command(len: usize) -> (res: CommandSpec)
    ensures
        res.program@ == "powershell"@,
        string_views(res.args@) == seq![
            "-NoProfile"@,
            "-NonInteractive"@,
            "-Command"@,
            WINDOWS_RANDOM_HEAD@ + digits(len as nat) + WINDOWS_RANDOM_TAIL@,
        ],
        res.env@.len() == 0,
{
    let n = decimal_string(len as u64);
    let script = concat3(WINDOWS_RANDOM_HEAD, n.as_str(), WINDOWS_RANDOM_TAIL);
    let mut args: Vec<String> = Vec::new();
    args.push("-NoProfile".to_owned());
    args.push("-NonInteractive".to_owned());
    args.push("-Command".to_owned());
    args.push(script);
    let ghost expected = seq![
        "-NoProfile"@,
        "-NonInteractive"@,
        "-Command"@,
        WINDOWS_RANDOM_HEAD@ + digits(len as nat) + WINDOWS_RANDOM_TAIL@,
    ];
    assert(string_views(args@) =~= expected);
    CommandSpec { program: "powershell".to_owned(), args, env: Vec::new() }
}

/// The value of a hexadecimal digit, either case.
pub open spec fn hex_value(c: char) -> int {
    if '0' <= c && c <= '9' {
        c as int - '0' as int
    } else if 'a' <= c && c <= 'f' {
        c as int - 'a' as int + 10
    } else {
        c as int - 'A' as int + 10
    }
}

/// The bytes that pairs of hex digits stand for, high digit first.
pub open spec fn decode_hex(s: Seq<char>) -> Seq<u8>
    decreases s.len(),
{
    if s.len() < 2 {
        seq![]
    } else {
        seq![(hex_value(s[0]) * 16 + hex_value(s[1])) as u8] + decode_hex(s.skip(2))
    }
}

/// What the Windows random source gives for `len` bytes, from the outcome of
/// the PowerShell command: the bytes its trimmed output stands for, if that
/// output is exactly `2 * len` hex digits.
pub open spec fn windows_random_result(outcome: Result<CommandOutput, String>, len: nat) -> Result<
    Seq<u8>,
    Seq<char>,
> {
    match outcome {
        Err(e) => Err(WINDOWS_RANDOM_CALL_FAILED@ + e@),
        Ok(o) => if !o.success {
            Err(trim(o.stderr@))
        } else {
            let h = trim(o.stdout@);
            if h.len() == 2 * len && forall|i: int| 0 <= i < h.len() ==> is_ascii_hexdigit(#[trigger] h[i]) {
                Ok(decode_hex(h))
            } else {
                Err(WINDOWS_RANDOM_INVALID@)
            }
        },
    }
}

fn hex_value_exec(c: char) -> (res: u8)
    requires
        is_ascii_hexdigit(c),
    ensures
        res as int == hex_value(c),
        res < 16,
{
    let v = c as u32;
    if '0' <= c && c <= '9' {
        (v - ('0' as u32)) as u8
    } else if 'a' <= c && c <= 'f' {
        (v - ('a' as u32) + 10) as u8
    } else {
        (v - ('A' as u32) + 10) as u8
    }
}

/// The random bytes from the outcome of the PowerShell command, or why
/// there are none.
pub fn windows_random_bytes(outcome: Result<CommandOutput, String>, len: usize) -> (res: Result<
    Vec<u8>,
    String,
>)
    ensures
        match res {
            Ok(b) => windows_random_result(outcome, len as nat) == Ok::<Seq<u8>, Seq<char>>(b@),
            Err(e) => windows_random_result(outcome, len as nat) == Err::<Seq<u8>, Seq<char>>(
                e@,
            ),
        },
{
    let o = match outcome {
        Err(e) => return Err(concat2(WINDOWS_RANDOM_CALL_FAILED, e.as_str())),
        Ok(o) => o,
    };
    if !o.success {
        let sc = chars_of(o.stderr.as_str());
        let t = trim_chars(&sc);
        return Err(string_of(&t));
    }
    let oc = chars_of(o.stdout.as_str());
    let h = trim_chars(&oc);
    if h.len() % 2 != 0 || h.len() / 2 != len {
        assert(h@.len() != 2 * len);
        assert(h@ == trim(o.stdout@));
        return Err(WINDOWS_RANDOM_INVALID.to_owned());
    }
    let mut i: usize = 0;
    while i < h.len()
        invariant
            i <= h.len(),
            h@.len() == 2 * len,
            match outcome {
                Ok(oo) => oo.success && h@ == trim(oo.stdout@),
                Err(_) => false,
            },
            forall|j: int| 0 <= j < i ==> is_ascii_hexdigit(#[trigger] h@[j]),
        decreases h.len() - i,
    {
        let c = h[i];
        if !(('0' <= c && c <= '9') || ('a' <= c && c <= 'f') || ('A' <= c && c <= 'F')) {
            assert(!is_ascii_hexdigit(h@[i as int]));
            return Err(WINDOWS_RANDOM_INVALID.to_owned());
        }
        i = i + 1;
    }
    let mut bytes: Vec<u8> = Vec::new();
    let mut k: usize = 0;
    assert(h@.skip(0) =~= h@);
    while k < len
        invariant
            k <= len,
            h@.len() == 2 * len,
            match outcome {
                Ok(oo) => oo.success && h@ == trim(oo.stdout@),
                Err(_) => false,
            },
            forall|j: int| 0 <= j < h@.len() ==> is_ascii_hexdigit(#[trigger] h@[j]),
            decode_hex(h@) == bytes@ + decode_hex(h@.skip(2 * k as int)),
        decreases len - k,
    {
        assert(2 * k + 1 < h.len());
        let hi = hex_value_exec(h[2 * k]);
        let lo = hex_value_exec(h[2 * k + 1]);
        let ghost rest = h@.skip(2 * k as int);
        assert(rest[0] == h@[2 * k as int]);
        assert(rest[1] == h@[2 * k + 1]);
        assert(rest.skip(2) =~= h@.skip(2 * (k + 1) as int));
        let ghost before = bytes@;
        bytes.push(hi * 16 + lo);
        assert(before + (seq![(hex_value(rest[0]) * 16 + hex_value(rest[1])) as u8] + decode_hex(
            rest.skip(2),
        )) =~= bytes@ + decode_hex(h@.skip(2 * (k + 1) as int)));
        k = k + 1;
    }
    assert(h@.skip(2 * len as int).len() == 0);
    assert(bytes@ + decode_hex(h@.skip(2 * len as int)) =~= bytes@);
    Ok(bytes)
}

/// Makes a gateway token from the outcome of reading the system's random
/// source: `ocm-` followed by the hex digits of the bytes read, or the error
/// of the random source.
pub fn generate_secure_token(random_bytes: Result<Vec<u8>, String>) -> (res: Result<String, String>)
    ensures
        match random_bytes {
            Ok(b) => res matches Ok(t) && t@ == token_of(b@) && t@.len() == 4 + 2 * b@.len() && (
            forall|i: int| 4 <= i < t@.len() ==> is_ascii_hexdigit(#[trigger] t@[i])),
            Err(e) => res == Err::<String, String>(e),
        },
{
    match random_bytes {
        Err(e) => Err(e),
        Ok(b) => {
            let h = to_hex(b.as_slice());
            let mut t: Vec<char> = Vec::new();
            t.push('o');
            t.push('c');
            t.push('m');
            t.push('-');
            let hc = chars_of(h.as_str());
            crate::text::extend_chars(&mut t, &hc);
            assert(t@ =~= token_of(b@));
            assert forall|i: int| 4 <= i < t@.len() implies is_ascii_hexdigit(#[trigger] t@[i]) by {
                assert(t@[i] == h@[i - 4]);
            }
            Ok(string_of(&t))
        },
    }
}

} // verus!
