//! The binary codec for service descriptors: a length-prefixed,
//! little-endian encoding of a [`ServiceConfig`], and its decoder. The
//! decoder reports every malformed buffer with a typed error, checks the
//! environment's key uniqueness and the schedule's validity, and accepts a
//! buffer exactly when it is a complete encoding; decoding an encoded
//! descriptor gives the descriptor back.

use vstd::prelude::*;
use vstd::bytes::spec_u64_to_le_bytes;
use vstd::bytes::spec_u64_from_le_bytes;
use vstd::bytes::lemma_auto_spec_u64_to_from_le_bytes;
use vstd::bytes::u64_to_le_bytes;
use vstd::bytes::u64_from_le_bytes;
use vstd::slice::slice_subrange;
use vstd::utf8::encode_utf8;
use vstd::utf8::decode_utf8;
use vstd::utf8::valid_utf8;
use crate::config::ConfigView;
use crate::config::CronStr;
use crate::config::DescriptorError;
use crate::config::EnvMap;
use crate::config::RestartPolicy;
use crate::config::ServiceConfig;
use crate::config::config_view_wf;
use crate::config::cron_is_valid;
use crate::config::env_key;
use crate::config::env_keys_unique;

verus! {

broadcast use vstd::utf8::encode_utf8_valid_utf8, vstd::utf8::encode_utf8_decode_utf8;

// ---------------------------------------------------------------------------
// The encoding, as sequences of bytes.
// ---------------------------------------------------------------------------

/// A 64-bit length or count: eight bytes, little endian.
pub open spec fn enc_u64(x: u64) -> Seq<u8> {
    spec_u64_to_le_bytes(x)
}

/// A string: its UTF-8 byte length, then its UTF-8 bytes.
pub open spec fn enc_str(s: Seq<char>) -> Seq<u8> {
    enc_u64(encode_utf8(s).len() as u64) + encode_utf8(s)
}

/// The elements of a string list, in order.
pub open spec fn enc_str_elems(ss: Seq<Seq<char>>) -> Seq<u8>
    decreases ss.len(),
{
    if ss.len() == 0 {
        Seq::empty()
    } else {
        enc_str(ss[0]) + enc_str_elems(ss.drop_first())
    }
}

/// A string list: its count, then its elements.
pub open spec fn enc_str_list(ss: Seq<Seq<char>>) -> Seq<u8> {
    enc_u64(ss.len() as u64) + enc_str_elems(ss)
}

/// The entries of an environment, in order: key then value.
pub open spec fn enc_env_elems(es: Seq<(Seq<char>, Seq<char>)>) -> Seq<u8>
    decreases es.len(),
{
    if es.len() == 0 {
        Seq::empty()
    } else {
        enc_str(es[0].0) + enc_str(es[0].1) + enc_env_elems(es.drop_first())
    }
}

/// An environment: its entry count, then its entries.
pub open spec fn enc_env(es: Seq<(Seq<char>, Seq<char>)>) -> Seq<u8> {
    enc_u64(es.len() as u64) + enc_env_elems(es)
}

/// An optional string: a presence byte, then the string if present.
pub open spec fn enc_opt_str(o: Option<Seq<char>>) -> Seq<u8> {
    match o {
        None => seq![0u8],
        Some(s) => seq![1u8] + enc_str(s),
    }
}

/// An optional 64-bit value: a presence byte, then the value if present.
pub open spec fn enc_opt_u64(o: Option<u64>) -> Seq<u8> {
    match o {
        None => seq![0u8],
        Some(x) => seq![1u8] + enc_u64(x),
    }
}

/// The byte that stands for each restart policy.
pub open spec fn policy_tag(p: RestartPolicy) -> u8 {
    match p {
        RestartPolicy::Always => 0u8,
        RestartPolicy::OnFailure => 1u8,
        RestartPolicy::Never => 2u8,
        RestartPolicy::OnResourceChange => 3u8,
    }
}

/// A boolean: one byte, zero or one.
pub open spec fn enc_bool(b: bool) -> Seq<u8> {
    if b {
        seq![1u8]
    } else {
        seq![0u8]
    }
}

/// A whole descriptor: its fields in declaration order.
pub open spec fn spec_encode_config(c: ConfigView) -> Seq<u8> {
    enc_str(c.name) + enc_str(c.exec_path) + enc_str_list(c.args) + enc_env(c.env) + enc_opt_str(
        c.working_dir,
    ) + seq![policy_tag(c.restart_policy)] + enc_opt_u64(c.timeout_stop) + enc_opt_str(c.schedule)
        + enc_bool(c.force_restart_on_schedule)
}

// ---------------------------------------------------------------------------
// The encoder.
// ---------------------------------------------------------------------------

fn write_u64(out: &mut Vec<u8>, x: u64)
    ensures
        final(out)@ == old(out)@ + enc_u64(x),
{
    let bytes = u64_to_le_bytes(x);
    out.extend_from_slice(bytes.as_slice());
    assert(final(out)@ =~= old(out)@ + enc_u64(x));
}

fn write_str(out: &mut Vec<u8>, s: &str)
    ensures
        final(out)@ == old(out)@ + enc_str(s@),
{
    let bytes = s.as_bytes();
    let n: u64 = bytes.len() as u64;
    write_u64(out, n);
    out.extend_from_slice(bytes);
    assert(final(out)@ =~= old(out)@ + enc_str(s@));
}

fn write_byte(out: &mut Vec<u8>, b: u8)
    ensures
        final(out)@ == old(out)@ + seq![b],
{
    out.push(b);
    assert(final(out)@ =~= old(out)@ + seq![b]);
}

fn write_str_list(out: &mut Vec<u8>, ss: &Vec<String>)
    ensures
        final(out)@ == old(out)@ + enc_str_list(ss@.map_values(|s: String| s@)),
{
    let ghost views = ss@.map_values(|s: String| s@);
    write_u64(out, ss.len() as u64);
    let mut i: usize = 0;
    while i < ss.len()
        invariant
            i <= ss@.len(),
            views == ss@.map_values(|s: String| s@),
            out@ == old(out)@ + enc_u64(views.len() as u64) + enc_str_elems(views.take(i as int)),
        decreases ss@.len() - i,
    {
        let ghost pre = views.take(i as int);
        write_str(out, ss[i].as_str());
        proof {
            lemma_enc_str_elems_snoc(pre, views[i as int]);
            assert(views.take(i + 1) =~= pre.push(views[i as int]));
        }
        i += 1;
    }
    proof {
        assert(views.take(views.len() as int) =~= views);
    }
}

fn write_env(out: &mut Vec<u8>, env: &EnvMap)
    ensures
        final(out)@ == old(out)@ + enc_env(env@),
{
    write_u64(out, env.len() as u64);
    let n = env.len();
    let mut i: usize = 0;
    while i < n
        invariant
            i <= env@.len(),
            n == env@.len(),
            out@ == old(out)@ + enc_u64(env@.len() as u64) + enc_env_elems(env@.take(i as int)),
        decreases env@.len() - i,
    {
        let ghost pre = env@.take(i as int);
        let pair = env.entry(i);
        write_str(out, pair.0.as_str());
        write_str(out, pair.1.as_str());
        proof {
            lemma_enc_env_elems_snoc(pre, env@[i as int]);
            assert(env@.take(i + 1) =~= pre.push(env@[i as int]));
        }
        i += 1;
    }
    proof {
        assert(env@.take(env@.len() as int) =~= env@);
    }
}

/// Appending one string to a list appends its encoding.
proof fn lemma_enc_str_elems_snoc(ss: Seq<Seq<char>>, s: Seq<char>)
    ensures
        enc_str_elems(ss.push(s)) == enc_str_elems(ss) + enc_str(s),
    decreases ss.len(),
{
    reveal_with_fuel(enc_str_elems, 3);
    if ss.len() == 0 {
        assert(ss.push(s)[0] == s);
        assert(ss.push(s).drop_first() =~= Seq::<Seq<char>>::empty());
        assert(enc_str_elems(ss.push(s)) =~= enc_str_elems(ss) + enc_str(s));
    } else {
        assert(ss.push(s).drop_first() =~= ss.drop_first().push(s));
        lemma_enc_str_elems_snoc(ss.drop_first(), s);
        assert(ss.push(s)[0] == ss[0]);
        assert(enc_str_elems(ss.push(s)) == enc_str(ss[0]) + enc_str_elems(
            ss.drop_first().push(s),
        ));
        assert(enc_str_elems(ss.push(s)) == enc_str(ss[0]) + (enc_str_elems(ss.drop_first())
            + enc_str(s)));
        assert(enc_str_elems(ss) == enc_str(ss[0]) + enc_str_elems(ss.drop_first()));
        assert(enc_str_elems(ss.push(s)) =~= enc_str_elems(ss) + enc_str(s));
    }
}

/// Appending one entry to an environment appends its encoding.
proof fn lemma_enc_env_elems_snoc(es: Seq<(Seq<char>, Seq<char>)>, e: (Seq<char>, Seq<char>))
    ensures
        enc_env_elems(es.push(e)) == enc_env_elems(es) + enc_str(e.0) + enc_str(e.1),
    decreases es.len(),
{
    reveal_with_fuel(enc_env_elems, 3);
    if es.len() == 0 {
        assert(es.push(e)[0] == e);
        assert(es.push(e).drop_first() =~= Seq::<(Seq<char>, Seq<char>)>::empty());
        assert(enc_env_elems(es.push(e)) =~= enc_env_elems(es) + enc_str(e.0) + enc_str(e.1));
    } else {
        assert(es.push(e).drop_first() =~= es.drop_first().push(e));
        lemma_enc_env_elems_snoc(es.drop_first(), e);
        assert(es.push(e)[0] == es[0]);
        assert(enc_env_elems(es.push(e)) == enc_str(es[0].0) + enc_str(es[0].1) + enc_env_elems(
            es.drop_first().push(e),
        ));
        assert(enc_env_elems(es.push(e)) == enc_str(es[0].0) + enc_str(es[0].1) + (enc_env_elems(
            es.drop_first(),
        ) + enc_str(e.0) + enc_str(e.1)));
        assert(enc_env_elems(es) == enc_str(es[0].0) + enc_str(es[0].1) + enc_env_elems(
            es.drop_first(),
        ));
        assert(enc_env_elems(es.push(e)) =~= enc_env_elems(es) + enc_str(e.0) + enc_str(e.1));
    }
}

/// Encodes `config` to its on-disk byte form.
#[verifier::rlimit(60)]
pub fn serialize_service_config(config: &ServiceConfig) -> (r: Vec<u8>)
    ensures
        r@ == spec_encode_config(config@),
{
    let mut out: Vec<u8> = Vec::new();
    write_str(&mut out, config.name.as_str());
    write_str(&mut out, config.exec_path.as_str());
    write_str_list(&mut out, &config.args);
    write_env(&mut out, &config.env);
    match config.working_dir {
        None => write_byte(&mut out, 0),
        Some(ref d) => {
            write_byte(&mut out, 1);
            write_str(&mut out, d.as_str());
        },
    }
    let tag: u8 = match config.restart_policy {
        RestartPolicy::Always => 0,
        RestartPolicy::OnFailure => 1,
        RestartPolicy::Never => 2,
        RestartPolicy::OnResourceChange => 3,
    };
    write_byte(&mut out, tag);
    match config.timeout_stop {
        None => write_byte(&mut out, 0),
        Some(t) => {
            write_byte(&mut out, 1);
            write_u64(&mut out, t);
        },
    }
    match config.schedule {
        None => write_byte(&mut out, 0),
        Some(ref c) => {
            write_byte(&mut out, 1);
            write_str(&mut out, c.as_str());
        },
    }
    write_byte(&mut out, if config.force_restart_on_schedule { 1 } else { 0 });
    assert(out@ =~= spec_encode_config(config@));
    out
}

// ---------------------------------------------------------------------------
// The decoding, as a function of the byte sequence.
// ---------------------------------------------------------------------------

/// Reads eight little-endian bytes at `i`.
pub open spec fn dec_u64(b: Seq<u8>, i: int) -> Result<(u64, int), DescriptorError> {
    if 0 <= i && i + 8 <= b.len() {
        Ok((spec_u64_from_le_bytes(b.subrange(i, i + 8)), i + 8))
    } else {
        Err(DescriptorError::Truncated)
    }
}

/// Reads one byte at `i`.
pub open spec fn dec_byte(b: Seq<u8>, i: int) -> Result<(u8, int), DescriptorError> {
    if 0 <= i < b.len() {
        Ok((b[i], i + 1))
    } else {
        Err(DescriptorError::Truncated)
    }
}

/// Reads a length-prefixed UTF-8 string at `i`.
pub open spec fn dec_str(b: Seq<u8>, i: int) -> Result<(Seq<char>, int), DescriptorError> {
    match dec_u64(b, i) {
        Err(e) => Err(e),
        Ok((n, j)) => if n as int > b.len() - j {
            Err(DescriptorError::Truncated)
        } else {
            let bytes = b.subrange(j, j + n as int);
            if valid_utf8(bytes) {
                Ok((decode_utf8(bytes), j + n as int))
            } else {
                Err(DescriptorError::BadUtf8)
            }
        },
    }
}

/// Reads `n` more strings at `i`, after those already read in `acc`.
pub open spec fn dec_str_elems(b: Seq<u8>, i: int, n: u64, acc: Seq<Seq<char>>) -> Result<
    (Seq<Seq<char>>, int),
    DescriptorError,
>
    decreases n,
{
    if n == 0 {
        Ok((acc, i))
    } else {
        match dec_str(b, i) {
            Err(e) => Err(e),
            Ok((s, j)) => dec_str_elems(b, j, (n - 1) as u64, acc.push(s)),
        }
    }
}

/// Reads a counted string list at `i`.
pub open spec fn dec_str_list(b: Seq<u8>, i: int) -> Result<(Seq<Seq<char>>, int), DescriptorError> {
    match dec_u64(b, i) {
        Err(e) => Err(e),
        Ok((n, j)) => dec_str_elems(b, j, n, Seq::empty()),
    }
}

/// Whether some entry of `es` has key `k`.
pub open spec fn env_has_key(es: Seq<(Seq<char>, Seq<char>)>, k: Seq<char>) -> bool {
    exists|t: int| 0 <= t < es.len() && es[t].0 == k
}

/// Reads `n` more environment entries at `i`, after those already read in
/// `acc`, refusing a key that was already read.
pub open spec fn dec_env_elems(
    b: Seq<u8>,
    i: int,
    n: u64,
    acc: Seq<(Seq<char>, Seq<char>)>,
) -> Result<(Seq<(Seq<char>, Seq<char>)>, int), DescriptorError>
    decreases n,
{
    if n == 0 {
        Ok((acc, i))
    } else {
        match dec_str(b, i) {
            Err(e) => Err(e),
            Ok((k, j)) => match dec_str(b, j) {
                Err(e) => Err(e),
                Ok((v, l)) => if env_has_key(acc, k) {
                    Err(DescriptorError::DuplicateEnvKey)
                } else {
                    dec_env_elems(b, l, (n - 1) as u64, acc.push((k, v)))
                },
            },
        }
    }
}

/// Reads a counted environment at `i`.
pub open spec fn dec_env(b: Seq<u8>, i: int) -> Result<
    (Seq<(Seq<char>, Seq<char>)>, int),
    DescriptorError,
> {
    match dec_u64(b, i) {
        Err(e) => Err(e),
        Ok((n, j)) => dec_env_elems(b, j, n, Seq::empty()),
    }
}

/// Reads an optional string at `i`: a presence byte, then the string.
pub open spec fn dec_opt_str(b: Seq<u8>, i: int) -> Result<
    (Option<Seq<char>>, int),
    DescriptorError,
> {
    match dec_byte(b, i) {
        Err(e) => Err(e),
        Ok((t, j)) => if t == 0 {
            Ok((None, j))
        } else if t == 1 {
            match dec_str(b, j) {
                Err(e) => Err(e),
                Ok((s, l)) => Ok((Some(s), l)),
            }
        } else {
            Err(DescriptorError::BadTag)
        },
    }
}

/// Reads an optional 64-bit value at `i`.
pub open spec fn dec_opt_u64(b: Seq<u8>, i: int) -> Result<(Option<u64>, int), DescriptorError> {
    match dec_byte(b, i) {
        Err(e) => Err(e),
        Ok((t, j)) => if t == 0 {
            Ok((None, j))
        } else if t == 1 {
            match dec_u64(b, j) {
                Err(e) => Err(e),
                Ok((x, l)) => Ok((Some(x), l)),
            }
        } else {
            Err(DescriptorError::BadTag)
        },
    }
}

/// Reads a restart policy at `i`.
pub open spec fn dec_policy(b: Seq<u8>, i: int) -> Result<(RestartPolicy, int), DescriptorError> {
    match dec_byte(b, i) {
        Err(e) => Err(e),
        Ok((t, j)) => if t == 0 {
            Ok((RestartPolicy::Always, j))
        } else if t == 1 {
            Ok((RestartPolicy::OnFailure, j))
        } else if t == 2 {
            Ok((RestartPolicy::Never, j))
        } else if t == 3 {
            Ok((RestartPolicy::OnResourceChange, j))
        } else {
            Err(DescriptorError::BadTag)
        },
    }
}

/// Reads a boolean at `i`.
pub open spec fn dec_bool(b: Seq<u8>, i: int) -> Result<(bool, int), DescriptorError> {
    match dec_byte(b, i) {
        Err(e) => Err(e),
        Ok((t, j)) => if t == 0 {
            Ok((false, j))
        } else if t == 1 {
            Ok((true, j))
        } else {
            Err(DescriptorError::BadTag)
        },
    }
}

/// Reads a whole descriptor: every field in declaration order, a valid
/// schedule, and nothing after the last field.
pub open spec fn spec_decode_config(b: Seq<u8>) -> Result<ConfigView, DescriptorError> {
    match dec_str(b, 0) {
        Err(e) => Err(e),
        Ok((name, i1)) => match dec_str(b, i1) {
            Err(e) => Err(e),
            Ok((exec_path, i2)) => match dec_str_list(b, i2) {
                Err(e) => Err(e),
                Ok((args, i3)) => match dec_env(b, i3) {
                    Err(e) => Err(e),
                    Ok((env, i4)) => match dec_opt_str(b, i4) {
                        Err(e) => Err(e),
                        Ok((working_dir, i5)) => match dec_policy(b, i5) {
                            Err(e) => Err(e),
                            Ok((restart_policy, i6)) => match dec_opt_u64(b, i6) {
                                Err(e) => Err(e),
                                Ok((timeout_stop, i7)) => match dec_opt_str(b, i7) {
                                    Err(e) => Err(e),
                                    Ok((schedule, i8)) => if schedule matches Some(s)
                                        && !cron_is_valid(s) {
                                        Err(DescriptorError::InvalidSchedule)
                                    } else {
                                        match dec_bool(b, i8) {
                                            Err(e) => Err(e),
                                            Ok((force, i9)) => if i9 == b.len() {
                                                Ok(
                                                    ConfigView {
                                                        name,
                                                        exec_path,
                                                        args,
                                                        env,
                                                        working_dir,
                                                        restart_policy,
                                                        timeout_stop,
                                                        schedule,
                                                        force_restart_on_schedule: force,
                                                    },
                                                )
                                            } else {
                                                Err(DescriptorError::TrailingBytes)
                                            },
                                        }
                                    },
                                },
                            },
                        },
                    },
                },
            },
        },
    }
}

// ---------------------------------------------------------------------------
// The decoder.
// ---------------------------------------------------------------------------

/// Relies on `core::str::from_utf8`: it accepts exactly the valid UTF-8
/// byte sequences and returns the characters they encode.
#[verifier::external_body]
fn utf8_to_string(bytes: &[u8]) -> (r: Option<String>)
    ensures
        r is Some <==> valid_utf8(bytes@),
        r matches Some(s) ==> s@ == decode_utf8(bytes@),
{
    match core::str::from_utf8(bytes) {
        Ok(s) => Some(s.to_string()),
        Err(_) => None,
    }
}

fn read_u64(data: &[u8], i: usize) -> (r: Result<(u64, usize), DescriptorError>)
    ensures
        match r {
            Ok((v, j)) => dec_u64(data@, i as int) == Ok::<(u64, int), DescriptorError>(
                (v, j as int),
            ) && j <= data@.len(),
            Err(e) => dec_u64(data@, i as int) == Err::<(u64, int), DescriptorError>(e),
        },
{
    if data.len() >= 8 && i <= data.len() - 8 {
        let s = slice_subrange(data, i, i + 8);
        let v = u64_from_le_bytes(s);
        Ok((v, i + 8))
    } else {
        Err(DescriptorError::Truncated)
    }
}

fn read_byte(data: &[u8], i: usize) -> (r: Result<(u8, usize), DescriptorError>)
    ensures
        match r {
            Ok((v, j)) => dec_byte(data@, i as int) == Ok::<(u8, int), DescriptorError>(
                (v, j as int),
            ) && j <= data@.len(),
            Err(e) => dec_byte(data@, i as int) == Err::<(u8, int), DescriptorError>(e),
        },
{
    if i < data.len() {
        let v = *vstd::slice::slice_index_get(data, i);
        Ok((v, i + 1))
    } else {
        Err(DescriptorError::Truncated)
    }
}

fn read_str(data: &[u8], i: usize) -> (r: Result<(String, usize), DescriptorError>)
    ensures
        match r {
            Ok((s, j)) => dec_str(data@, i as int) == Ok::<(Seq<char>, int), DescriptorError>(
                (s@, j as int),
            ) && j <= data@.len(),
            Err(e) => dec_str(data@, i as int) == Err::<(Seq<char>, int), DescriptorError>(e),
        },
{
    match read_u64(data, i) {
        Err(e) => Err(e),
        Ok((n, j)) => {
            if n > (data.len() - j) as u64 {
                Err(DescriptorError::Truncated)
            } else {
                let m = n as usize;
                let bytes = slice_subrange(data, j, j + m);
                match utf8_to_string(bytes) {
                    Some(s) => Ok((s, j + m)),
                    None => Err(DescriptorError::BadUtf8),
                }
            }
        },
    }
}

fn read_str_list(data: &[u8], i: usize) -> (r: Result<(Vec<String>, usize), DescriptorError>)
    ensures
        match r {
            Ok((ss, j)) => dec_str_list(data@, i as int) == Ok::<
                (Seq<Seq<char>>, int),
                DescriptorError,
            >((ss@.map_values(|s: String| s@), j as int)) && j <= data@.len(),
            Err(e) => dec_str_list(data@, i as int) == Err::<(Seq<Seq<char>>, int), DescriptorError>(
                e,
            ),
        },
{
    match read_u64(data, i) {
        Err(e) => Err(e),
        Ok((n, j)) => {
            let mut acc: Vec<String> = Vec::new();
            let mut cur: usize = j;
            let mut rem: u64 = n;
            proof {
                assert(acc@.map_values(|s: String| s@) =~= Seq::<Seq<char>>::empty());
            }
            loop
                invariant
                    cur <= data@.len(),
                    dec_str_list(data@, i as int) == dec_str_elems(
                        data@,
                        cur as int,
                        rem,
                        acc@.map_values(|s: String| s@),
                    ),
                ensures
                    rem == 0,
                    cur <= data@.len(),
                    dec_str_list(data@, i as int) == dec_str_elems(
                        data@,
                        cur as int,
                        rem,
                        acc@.map_values(|s: String| s@),
                    ),
                decreases rem,
            {
                if rem == 0 {
                    break ;
                }
                let ghost accv = acc@.map_values(|s: String| s@);
                match read_str(data, cur) {
                    Err(e) => {
                        proof {
                            assert(dec_str_elems(data@, cur as int, rem, accv) == Err::<
                                (Seq<Seq<char>>, int),
                                DescriptorError,
                            >(e));
                        }
                        return Err(e);
                    },
                    Ok((s, nxt)) => {
                        proof {
                            assert(dec_str_elems(data@, cur as int, rem, accv) == dec_str_elems(
                                data@,
                                nxt as int,
                                (rem - 1) as u64,
                                accv.push(s@),
                            ));
                        }
                        acc.push(s);
                        proof {
                            assert(acc@.map_values(|s: String| s@) =~= accv.push(s@));
                        }
                        cur = nxt;
                        rem = rem - 1;
                    },
                }
            }
            proof {
                assert(dec_str_elems(data@, cur as int, 0u64, acc@.map_values(|s: String| s@))
                    == Ok::<(Seq<Seq<char>>, int), DescriptorError>(
                    (acc@.map_values(|s: String| s@), cur as int),
                ));
            }
            Ok((acc, cur))
        },
    }
}

fn read_env(data: &[u8], i: usize) -> (r: Result<(EnvMap, usize), DescriptorError>)
    ensures
        match r {
            Ok((env, j)) => dec_env(data@, i as int) == Ok::<
                (Seq<(Seq<char>, Seq<char>)>, int),
                DescriptorError,
            >((env@, j as int)) && j <= data@.len() && env.wf(),
            Err(e) => dec_env(data@, i as int) == Err::<
                (Seq<(Seq<char>, Seq<char>)>, int),
                DescriptorError,
            >(e),
        },
{
    match read_u64(data, i) {
        Err(e) => Err(e),
        Ok((n, j)) => {
            let mut acc: EnvMap = EnvMap::new();
            let mut cur: usize = j;
            let mut rem: u64 = n;
            loop
                invariant
                    cur <= data@.len(),
                    acc.wf(),
                    dec_env(data@, i as int) == dec_env_elems(data@, cur as int, rem, acc@),
                ensures
                    rem == 0,
                    cur <= data@.len(),
                    acc.wf(),
                    dec_env(data@, i as int) == dec_env_elems(data@, cur as int, rem, acc@),
                decreases rem,
            {
                if rem == 0 {
                    break ;
                }
                let ghost accv = acc@;
                match read_str(data, cur) {
                    Err(e) => {
                        proof {
                            assert(dec_env_elems(data@, cur as int, rem, accv) == Err::<
                                (Seq<(Seq<char>, Seq<char>)>, int),
                                DescriptorError,
                            >(e));
                        }
                        return Err(e);
                    },
                    Ok((k, jk)) => {
                        match read_str(data, jk) {
                            Err(e) => {
                                proof {
                                    assert(dec_env_elems(data@, cur as int, rem, accv) == Err::<
                                        (Seq<(Seq<char>, Seq<char>)>, int),
                                        DescriptorError,
                                    >(e));
                                }
                                return Err(e);
                            },
                            Ok((v, jv)) => {
                                if acc.contains_key(&k) {
                                    proof {
                                        let t = choose|t: int|
                                            0 <= t < accv.len() && env_key(accv, t) == k@;
                                        assert(accv[t].0 == k@);
                                        assert(env_has_key(accv, k@));
                                    }
                                    return Err(DescriptorError::DuplicateEnvKey);
                                }
                                proof {
                                    if env_has_key(accv, k@) {
                                        let t = choose|t: int|
                                            0 <= t < accv.len() && accv[t].0 == k@;
                                        assert(env_key(accv, t) == k@);
                                        assert(false);
                                    }
                                    assert(dec_env_elems(data@, cur as int, rem, accv)
                                        == dec_env_elems(
                                        data@,
                                        jv as int,
                                        (rem - 1) as u64,
                                        accv.push((k@, v@)),
                                    ));
                                }
                                acc.push_new(k, v);
                                cur = jv;
                                rem = rem - 1;
                            },
                        }
                    },
                }
            }
            proof {
                assert(dec_env_elems(data@, cur as int, 0u64, acc@) == Ok::<
                    (Seq<(Seq<char>, Seq<char>)>, int),
                    DescriptorError,
                >((acc@, cur as int)));
            }
            Ok((acc, cur))
        },
    }
}

fn read_opt_str(data: &[u8], i: usize) -> (r: Result<(Option<String>, usize), DescriptorError>)
    ensures
        match r {
            Ok((o, j)) => dec_opt_str(data@, i as int) == Ok::<
                (Option<Seq<char>>, int),
                DescriptorError,
            >(
                (
                    match o {
                        Some(s) => Some(s@),
                        None => None,
                    },
                    j as int,
                ),
            ) && j <= data@.len(),
            Err(e) => dec_opt_str(data@, i as int) == Err::<
                (Option<Seq<char>>, int),
                DescriptorError,
            >(e),
        },
{
    match read_byte(data, i) {
        Err(e) => Err(e),
        Ok((t, j)) => {
            if t == 0 {
                Ok((None, j))
            } else if t == 1 {
                match read_str(data, j) {
                    Err(e) => Err(e),
                    Ok((s, l)) => Ok((Some(s), l)),
                }
            } else {
                Err(DescriptorError::BadTag)
            }
        },
    }
}

fn read_opt_u64(data: &[u8], i: usize) -> (r: Result<(Option<u64>, usize), DescriptorError>)
    ensures
        match r {
            Ok((o, j)) => dec_opt_u64(data@, i as int) == Ok::<
                (Option<u64>, int),
                DescriptorError,
            >((o, j as int)) && j <= data@.len(),
            Err(e) => dec_opt_u64(data@, i as int) == Err::<(Option<u64>, int), DescriptorError>(e),
        },
{
    match read_byte(data, i) {
        Err(e) => Err(e),
        Ok((t, j)) => {
            if t == 0 {
                Ok((None, j))
            } else if t == 1 {
                match read_u64(data, j) {
                    Err(e) => Err(e),
                    Ok((x, l)) => Ok((Some(x), l)),
                }
            } else {
                Err(DescriptorError::BadTag)
            }
        },
    }
}

fn read_policy(data: &[u8], i: usize) -> (r: Result<(RestartPolicy, usize), DescriptorError>)
    ensures
        match r {
            Ok((p, j)) => dec_policy(data@, i as int) == Ok::<
                (RestartPolicy, int),
                DescriptorError,
            >((p, j as int)) && j <= data@.len(),
            Err(e) => dec_policy(data@, i as int) == Err::<(RestartPolicy, int), DescriptorError>(
                e,
            ),
        },
{
    match read_byte(data, i) {
        Err(e) => Err(e),
        Ok((t, j)) => {
            if t == 0 {
                Ok((RestartPolicy::Always, j))
            } else if t == 1 {
                Ok((RestartPolicy::OnFailure, j))
            } else if t == 2 {
                Ok((RestartPolicy::Never, j))
            } else if t == 3 {
                Ok((RestartPolicy::OnResourceChange, j))
            } else {
                Err(DescriptorError::BadTag)
            }
        },
    }
}

fn read_bool(data: &[u8], i: usize) -> (r: Result<(bool, usize), DescriptorError>)
    ensures
        match r {
            Ok((v, j)) => dec_bool(data@, i as int) == Ok::<(bool, int), DescriptorError>(
                (v, j as int),
            ) && j <= data@.len(),
            Err(e) => dec_bool(data@, i as int) == Err::<(bool, int), DescriptorError>(e),
        },
{
    match read_byte(data, i) {
        Err(e) => Err(e),
        Ok((t, j)) => {
            if t == 0 {
                Ok((false, j))
            } else if t == 1 {
                Ok((true, j))
            } else {
                Err(DescriptorError::BadTag)
            }
        },
    }
}

/// Decodes a descriptor from its on-disk byte form. A buffer is accepted
/// exactly when it is a complete, well-formed encoding; every rejection
/// carries the typed reason.
pub fn deserialize_service_config(data: &[u8]) -> (r: Result<ServiceConfig, DescriptorError>)
    ensures
        match r {
            Ok(c) => spec_decode_config(data@) == Ok::<ConfigView, DescriptorError>(c@) && c.wf(),
            Err(e) => spec_decode_config(data@) == Err::<ConfigView, DescriptorError>(e),
        },
{
    let name = match read_str(data, 0) {
        Ok(v) => v,
        Err(e) => {
            return Err(e);
        },
    };
    let exec_path = match read_str(data, name.1) {
        Ok(v) => v,
        Err(e) => {
            return Err(e);
        },
    };
    let args = match read_str_list(data, exec_path.1) {
        Ok(v) => v,
        Err(e) => {
            return Err(e);
        },
    };
    let env = match read_env(data, args.1) {
        Ok(v) => v,
        Err(e) => {
            return Err(e);
        },
    };
    let working_dir = match read_opt_str(data, env.1) {
        Ok(v) => v,
        Err(e) => {
            return Err(e);
        },
    };
    let restart_policy = match read_policy(data, working_dir.1) {
        Ok(v) => v,
        Err(e) => {
            return Err(e);
        },
    };
    let timeout_stop = match read_opt_u64(data, restart_policy.1) {
        Ok(v) => v,
        Err(e) => {
            return Err(e);
        },
    };
    let schedule_str = match read_opt_str(data, timeout_stop.1) {
        Ok(v) => v,
        Err(e) => {
            return Err(e);
        },
    };
    let schedule: Option<CronStr> = match schedule_str.0 {
        None => None,
        Some(s) => match CronStr::new(s) {
            Ok(c) => Some(c),
            Err(_) => {
                return Err(DescriptorError::InvalidSchedule);
            },
        },
    };
    let force = match read_bool(data, schedule_str.1) {
        Ok(v) => v,
        Err(e) => {
            return Err(e);
        },
    };
    if force.1 != data.len() {
        return Err(DescriptorError::TrailingBytes);
    }
    let config = ServiceConfig {
        name: name.0,
        exec_path: exec_path.0,
        args: args.0,
        env: env.0,
        working_dir: working_dir.0,
        restart_policy: restart_policy.0,
        timeout_stop: timeout_stop.0,
        schedule,
        force_restart_on_schedule: force.0,
    };
    proof {
        let s = spec_decode_config(data@);
        assert(s is Ok);
        assert(config@ =~= s->Ok_0);
    }
    Ok(config)
}

// ---------------------------------------------------------------------------
// Decoding inverts encoding.
// ---------------------------------------------------------------------------

/// Every length and count of `c` fits the 64-bit prefix it is encoded
/// with. Every descriptor held in memory satisfies this.
pub open spec fn config_encodable(c: ConfigView) -> bool {
    &&& encode_utf8(c.name).len() <= u64::MAX
    &&& encode_utf8(c.exec_path).len() <= u64::MAX
    &&& c.args.len() <= u64::MAX
    &&& forall|k: int|
        0 <= k < c.args.len() ==> encode_utf8(#[trigger] c.args[k]).len() <= u64::MAX
    &&& c.env.len() <= u64::MAX
    &&& forall|k: int|
        0 <= k < c.env.len() ==> encode_utf8((#[trigger] c.env[k]).0).len() <= u64::MAX
            && encode_utf8(c.env[k].1).len() <= u64::MAX
    &&& match c.working_dir {
        Some(d) => encode_utf8(d).len() <= u64::MAX,
        None => true,
    }
    &&& match c.schedule {
        Some(s) => encode_utf8(s).len() <= u64::MAX,
        None => true,
    }
}

/// Every byte of `e`, read through the window of `b` that equals `e`.
proof fn lemma_subrange_index(b: Seq<u8>, i: int, e: Seq<u8>)
    requires
        0 <= i,
        i + e.len() <= b.len(),
        b.subrange(i, i + e.len()) == e,
    ensures
        forall|m: int| i <= m < i + e.len() ==> #[trigger] b[m] == e[m - i],
{
    assert forall|m: int| i <= m < i + e.len() implies #[trigger] b[m] == e[m - i] by {
        assert(b.subrange(i, i + e.len() as int)[m - i] == e[m - i]);
    }
}

/// Reading eight bytes that encode `x` yields `x`.
proof fn lemma_dec_u64_of_enc(b: Seq<u8>, i: int, x: u64)
    requires
        0 <= i,
        i + 8 <= b.len(),
        b.subrange(i, i + 8) == enc_u64(x),
    ensures
        dec_u64(b, i) == Ok::<(u64, int), DescriptorError>((x, i + 8)),
{
    lemma_auto_spec_u64_to_from_le_bytes();
}

/// Reading bytes that encode the string `s` yields `s`.
proof fn lemma_dec_str_of_enc(b: Seq<u8>, i: int, s: Seq<char>)
    requires
        0 <= i,
        i + enc_str(s).len() <= b.len(),
        b.subrange(i, i + enc_str(s).len()) == enc_str(s),
        encode_utf8(s).len() <= u64::MAX,
    ensures
        dec_str(b, i) == Ok::<(Seq<char>, int), DescriptorError>((s, i + enc_str(s).len())),
{
    lemma_auto_spec_u64_to_from_le_bytes();
    let u = encode_utf8(s);
    let n: u64 = u.len() as u64;
    assert(enc_str(s).len() == 8 + u.len());
    lemma_subrange_index(b, i, enc_str(s));
    assert(b.subrange(i, i + 8) =~= enc_u64(n));
    lemma_dec_u64_of_enc(b, i, n);
    assert(b.subrange(i + 8, i + 8 + n as int) =~= u);
    assert(valid_utf8(u));
    assert(decode_utf8(u) == s);
}

/// Reading bytes that encode the strings `ss`, after those already read
/// in `acc`, yields `acc` extended by `ss`.
proof fn lemma_dec_str_elems_of_enc(b: Seq<u8>, i: int, ss: Seq<Seq<char>>, acc: Seq<Seq<char>>, n: u64)
    requires
        0 <= i,
        i + enc_str_elems(ss).len() <= b.len(),
        b.subrange(i, i + enc_str_elems(ss).len()) == enc_str_elems(ss),
        n as int == ss.len(),
        forall|k: int| 0 <= k < ss.len() ==> encode_utf8(#[trigger] ss[k]).len() <= u64::MAX,
    ensures
        dec_str_elems(b, i, n, acc) == Ok::<(Seq<Seq<char>>, int), DescriptorError>(
            (acc + ss, i + enc_str_elems(ss).len()),
        ),
    decreases ss.len(),
{
    if n == 0 {
        assert(acc + ss =~= acc);
        assert(enc_str_elems(ss).len() == 0);
    } else {
        let s0 = ss[0];
        let l0 = enc_str(s0).len() as int;
        let dd = ss.drop_first();
        assert(enc_str_elems(ss) == enc_str(s0) + enc_str_elems(dd));
        lemma_subrange_index(b, i, enc_str_elems(ss));
        assert(b.subrange(i, i + l0) =~= enc_str(s0));
        lemma_dec_str_of_enc(b, i, s0);
        assert(b.subrange(i + l0, i + l0 + enc_str_elems(dd).len()) =~= enc_str_elems(dd));
        assert forall|k: int| 0 <= k < dd.len() implies encode_utf8(#[trigger] dd[k]).len()
            <= u64::MAX by {
            assert(dd[k] == ss[k + 1]);
        }
        lemma_dec_str_elems_of_enc(b, i + l0, dd, acc.push(s0), (n - 1) as u64);
        assert(acc.push(s0) + dd =~= acc + ss);
        assert(dec_str_elems(b, i, n, acc) == dec_str_elems(b, i + l0, (n - 1) as u64, acc.push(s0)));
    }
}

/// Reading bytes that encode the entries `es`, after those already read
/// in `acc`, yields `acc` extended by `es`, provided the keys of the whole
/// are distinct.
proof fn lemma_dec_env_elems_of_enc(
    b: Seq<u8>,
    i: int,
    es: Seq<(Seq<char>, Seq<char>)>,
    acc: Seq<(Seq<char>, Seq<char>)>,
    n: u64,
)
    requires
        0 <= i,
        i + enc_env_elems(es).len() <= b.len(),
        b.subrange(i, i + enc_env_elems(es).len()) == enc_env_elems(es),
        n as int == es.len(),
        forall|k: int|
            0 <= k < es.len() ==> encode_utf8((#[trigger] es[k]).0).len() <= u64::MAX
                && encode_utf8(es[k].1).len() <= u64::MAX,
        env_keys_unique(acc + es),
    ensures
        dec_env_elems(b, i, n, acc) == Ok::<(Seq<(Seq<char>, Seq<char>)>, int), DescriptorError>(
            (acc + es, i + enc_env_elems(es).len()),
        ),
    decreases es.len(),
{
    if n == 0 {
        assert(acc + es =~= acc);
        assert(enc_env_elems(es).len() == 0);
    } else {
        let e0 = es[0];
        let lk = enc_str(e0.0).len() as int;
        let lv = enc_str(e0.1).len() as int;
        let dd = es.drop_first();
        assert(enc_env_elems(es) == enc_str(e0.0) + enc_str(e0.1) + enc_env_elems(dd));
        lemma_subrange_index(b, i, enc_env_elems(es));
        assert(b.subrange(i, i + lk) =~= enc_str(e0.0));
        lemma_dec_str_of_enc(b, i, e0.0);
        assert(b.subrange(i + lk, i + lk + lv) =~= enc_str(e0.1));
        lemma_dec_str_of_enc(b, i + lk, e0.1);
        assert(!env_has_key(acc, e0.0)) by {
            if env_has_key(acc, e0.0) {
                let t = choose|t: int| 0 <= t < acc.len() && acc[t].0 == e0.0;
                assert((acc + es)[t] == acc[t]);
                assert((acc + es)[acc.len() as int] == e0);
                assert(env_key(acc + es, t) == env_key(acc + es, acc.len() as int));
                assert(false);
            }
        }
        let acc2 = acc.push(e0);
        assert(acc2 + dd =~= acc + es);
        assert(env_keys_unique(acc2 + dd));
        assert(b.subrange(i + lk + lv, i + lk + lv + enc_env_elems(dd).len()) =~= enc_env_elems(
            dd,
        ));
        assert forall|k: int|
            0 <= k < dd.len() implies encode_utf8((#[trigger] dd[k]).0).len() <= u64::MAX
            && encode_utf8(dd[k].1).len() <= u64::MAX by {
            assert(dd[k] == es[k + 1]);
        }
        lemma_dec_env_elems_of_enc(b, i + lk + lv, dd, acc2, (n - 1) as u64);
        assert(dec_env_elems(b, i, n, acc) == dec_env_elems(b, i + lk + lv, (n - 1) as u64, acc2));
    }
}

/// End position of each field of the encoding of `c`, in order.
pub open spec fn end_name(c: ConfigView) -> int {
    enc_str(c.name).len() as int
}

pub open spec fn end_exec(c: ConfigView) -> int {
    end_name(c) + enc_str(c.exec_path).len()
}

pub open spec fn end_args(c: ConfigView) -> int {
    end_exec(c) + enc_str_list(c.args).len()
}

pub open spec fn end_env(c: ConfigView) -> int {
    end_args(c) + enc_env(c.env).len()
}

pub open spec fn end_wd(c: ConfigView) -> int {
    end_env(c) + enc_opt_str(c.working_dir).len()
}

pub open spec fn end_policy(c: ConfigView) -> int {
    end_wd(c) + 1
}

pub open spec fn end_timeout(c: ConfigView) -> int {
    end_policy(c) + enc_opt_u64(c.timeout_stop).len()
}

pub open spec fn end_schedule(c: ConfigView) -> int {
    end_timeout(c) + enc_opt_str(c.schedule).len()
}

#[verifier::rlimit(100)]
proof fn lemma_rt_name_exec_args(c: ConfigView)
    requires
        config_encodable(c),
    ensures
        spec_encode_config(c).len() == end_schedule(c) + 1,
        dec_str(spec_encode_config(c), 0) == Ok::<(Seq<char>, int), DescriptorError>(
            (c.name, end_name(c)),
        ),
        dec_str(spec_encode_config(c), end_name(c)) == Ok::<(Seq<char>, int), DescriptorError>(
            (c.exec_path, end_exec(c)),
        ),
        dec_str_list(spec_encode_config(c), end_exec(c)) == Ok::<
            (Seq<Seq<char>>, int),
            DescriptorError,
        >((c.args, end_args(c))),
{
    lemma_auto_spec_u64_to_from_le_bytes();
    let b = spec_encode_config(c);
    let i1 = end_name(c);
    let i2 = end_exec(c);
    let i3 = end_args(c);
    assert(b.subrange(0, i1) =~= enc_str(c.name));
    lemma_dec_str_of_enc(b, 0, c.name);
    assert(b.subrange(i1, i2) =~= enc_str(c.exec_path));
    lemma_dec_str_of_enc(b, i1, c.exec_path);
    assert(b.subrange(i2, i2 + 8) =~= enc_u64(c.args.len() as u64));
    lemma_dec_u64_of_enc(b, i2, c.args.len() as u64);
    assert(b.subrange(i2 + 8, i3) =~= enc_str_elems(c.args));
    lemma_dec_str_elems_of_enc(b, i2 + 8, c.args, Seq::empty(), c.args.len() as u64);
    assert(Seq::empty() + c.args =~= c.args);
}

#[verifier::rlimit(100)]
proof fn lemma_rt_env_wd(c: ConfigView)
    requires
        config_view_wf(c),
        config_encodable(c),
    ensures
        dec_env(spec_encode_config(c), end_args(c)) == Ok::<
            (Seq<(Seq<char>, Seq<char>)>, int),
            DescriptorError,
        >((c.env, end_env(c))),
        dec_opt_str(spec_encode_config(c), end_env(c)) == Ok::<
            (Option<Seq<char>>, int),
            DescriptorError,
        >((c.working_dir, end_wd(c))),
{
    lemma_auto_spec_u64_to_from_le_bytes();
    let b = spec_encode_config(c);
    let i3 = end_args(c);
    let i4 = end_env(c);
    let i5 = end_wd(c);
    assert(b.subrange(i3, i3 + 8) =~= enc_u64(c.env.len() as u64));
    lemma_dec_u64_of_enc(b, i3, c.env.len() as u64);
    assert(b.subrange(i3 + 8, i4) =~= enc_env_elems(c.env));
    assert(Seq::empty() + c.env =~= c.env);
    assert(env_keys_unique(Seq::empty() + c.env));
    lemma_dec_env_elems_of_enc(b, i3 + 8, c.env, Seq::empty(), c.env.len() as u64);
    match c.working_dir {
        None => {
            assert(b[i4] == 0u8);
        },
        Some(d) => {
            assert(b[i4] == 1u8);
            assert(b.subrange(i4 + 1, i5) =~= enc_str(d));
            lemma_dec_str_of_enc(b, i4 + 1, d);
        },
    }
}

#[verifier::rlimit(100)]
proof fn lemma_rt_tail(c: ConfigView)
    requires
        config_view_wf(c),
        config_encodable(c),
    ensures
        dec_policy(spec_encode_config(c), end_wd(c)) == Ok::<
            (RestartPolicy, int),
            DescriptorError,
        >((c.restart_policy, end_policy(c))),
        dec_opt_u64(spec_encode_config(c), end_policy(c)) == Ok::<
            (Option<u64>, int),
            DescriptorError,
        >((c.timeout_stop, end_timeout(c))),
        dec_opt_str(spec_encode_config(c), end_timeout(c)) == Ok::<
            (Option<Seq<char>>, int),
            DescriptorError,
        >((c.schedule, end_schedule(c))),
        dec_bool(spec_encode_config(c), end_schedule(c)) == Ok::<(bool, int), DescriptorError>(
            (c.force_restart_on_schedule, end_schedule(c) + 1),
        ),
{
    lemma_auto_spec_u64_to_from_le_bytes();
    let b = spec_encode_config(c);
    let i5 = end_wd(c);
    let i6 = end_policy(c);
    let i7 = end_timeout(c);
    let i8 = end_schedule(c);
    assert(b[i5] == policy_tag(c.restart_policy));
    match c.timeout_stop {
        None => {
            assert(b[i6] == 0u8);
        },
        Some(t) => {
            assert(b[i6] == 1u8);
            assert(b.subrange(i6 + 1, i7) =~= enc_u64(t));
            lemma_dec_u64_of_enc(b, i6 + 1, t);
        },
    }
    match c.schedule {
        None => {
            assert(b[i7] == 0u8);
        },
        Some(sch) => {
            assert(b[i7] == 1u8);
            assert(b.subrange(i7 + 1, i8) =~= enc_str(sch));
            lemma_dec_str_of_enc(b, i7 + 1, sch);
        },
    }
    assert(b[i8] == (if c.force_restart_on_schedule { 1u8 } else { 0u8 }));
}

/// Round trip: decoding the encoding of a well-formed descriptor yields
/// exactly that descriptor, across every optional field.
#[verifier::rlimit(100)]
pub proof fn lemma_config_round_trip(c: ConfigView)
    requires
        config_view_wf(c),
        config_encodable(c),
    ensures
        spec_decode_config(spec_encode_config(c)) == Ok::<ConfigView, DescriptorError>(c),
{
    let b = spec_encode_config(c);
    lemma_rt_name_exec_args(c);
    lemma_rt_env_wd(c);
    lemma_rt_tail(c);
    match c.schedule {
        None => {},
        Some(sch) => {
            assert(cron_is_valid(sch));
        },
    }
    let r = spec_decode_config(b);
    assert(r is Ok);
    assert(r->Ok_0 =~= c);
}

} // verus!

