//! Chapter metadata: every chapter directory records its title, order,
//! word count, segment count and the effective configuration as one JSON
//! object, built and escaped here character by character.

use vstd::prelude::*;
use crate::config::Config;
use crate::cachekey::{hex_digit, hex_digit_char};
use crate::naming::{dec_chars, u64_to_dec};
use crate::textutil::{chars_of, string_of};
use crate::chunk::append_chars;

verus! {

/// The JSON escape of one character.
pub open spec fn esc_char(c: char) -> Seq<char> {
    if c == '"' {
        seq!['\\', '"']
    } else if c == '\\' {
        seq!['\\', '\\']
    } else if c == '\n' {
        seq!['\\', 'n']
    } else if c == '\r' {
        seq!['\\', 'r']
    } else if c == '\t' {
        seq!['\\', 't']
    } else if (c as u32) < 32 {
        seq!['\\', 'u', '0', '0', hex_digit(((c as u32) >> 4) as u8), hex_digit(
            ((c as u32) & 0xf) as u8,
        )]
    } else {
        seq![c]
    }
}

/// A string with every character JSON-escaped.
pub open spec fn json_escape(s: Seq<char>) -> Seq<char>
    decreases s.len(),
{
    if s.len() == 0 {
        Seq::empty()
    } else {
        esc_char(s[0]) + json_escape(s.skip(1))
    }
}

fn escape_json(v: &Vec<char>) -> (r: Vec<char>)
    ensures
        r@ == json_escape(v@),
{
    let n = v.len();
    let mut r: Vec<char> = Vec::new();
    let mut i: usize = 0;
    proof {
        assert(v@.skip(0) =~= v@);
    }
    while i < n
        invariant
            i <= n,
            n == v@.len(),
            r@ + json_escape(v@.skip(i as int)) =~= json_escape(v@),
        decreases n - i,
    {
        let c = v[i];
        proof {
            assert(v@.skip(i as int)[0] == v@[i as int]);
            assert(v@.skip(i as int).skip(1) =~= v@.skip(i + 1));
        }
        if c == '"' {
            r.push('\\');
            r.push('"');
        } else if c == '\\' {
            r.push('\\');
            r.push('\\');
        } else if c == '\n' {
            r.push('\\');
            r.push('n');
        } else if c == '\r' {
            r.push('\\');
            r.push('r');
        } else if c == '\t' {
            r.push('\\');
            r.push('t');
        } else if (c as u32) < 32 {
            let u = c as u32;
            proof {
                assert(u < 32 ==> (u >> 4) < 16 && (u & 0xf) < 16) by (bit_vector);
            }
            r.push('\\');
            r.push('u');
            r.push('0');
            r.push('0');
            r.push(hex_digit_char((u >> 4) as u8));
            r.push(hex_digit_char((u & 0xf) as u8));
        } else {
            r.push(c);
        }
        i = i + 1;
        proof {
            assert(r@ + json_escape(v@.skip(i as int)) =~= json_escape(v@));
        }
    }
    proof {
        assert(r@ =~= json_escape(v@));
    }
    r
}

/// A boolean in JSON.
pub open spec fn bool_json(b: bool) -> Seq<char> {
    if b {
        "true"@
    } else {
        "false"@
    }
}

/// The effective configuration as one JSON object.
pub open spec fn config_json(cfg: Config) -> Seq<char> {
    "{\"sample_rate\":"@ + dec_chars(cfg.sample_rate as int) + ",\"voice_speed_centi\":"@
        + dec_chars(cfg.voice_speed_centi as int) + ",\"voice_pitch_centi\":"@ + dec_chars(
        cfg.voice_pitch_centi as int,
    ) + ",\"output_format\":\""@ + cfg.output_format.name_spec() + "\",\"quality_centi\":"@
        + dec_chars(cfg.quality_centi as int) + ",\"chunk_size\":"@ + dec_chars(
        cfg.chunk_size as int,
    ) + ",\"max_workers\":"@ + dec_chars(cfg.max_workers as int) + ",\"cache_enabled\":"@
        + bool_json(cfg.cache_enabled) + ",\"preprocessing_aggressive\":"@ + bool_json(
        cfg.preprocessing_aggressive,
    ) + "}"@
}

/// One chapter's metadata record: title, order, word count, segment count
/// and the effective configuration.
pub open spec fn metadata_json(
    title: Seq<char>,
    order: int,
    word_count: int,
    chunk_count: int,
    cfg: Config,
) -> Seq<char> {
    "{\"title\":\""@ + json_escape(title) + "\",\"order\":"@ + dec_chars(order)
        + ",\"word_count\":"@ + dec_chars(word_count) + ",\"chunks\":"@ + dec_chars(chunk_count)
        + ",\"config\":"@ + config_json(cfg) + "}"@
}

fn push_dec(out: &mut Vec<char>, n: u64)
    ensures
        final(out)@ == old(out)@ + dec_chars(n as int),
{
    let digits = u64_to_dec(n);
    append_chars(out, &digits);
}

fn push_lit(out: &mut Vec<char>, lit: &str)
    ensures
        final(out)@ == old(out)@ + lit@,
{
    let v = chars_of(lit);
    append_chars(out, &v);
}

fn config_json_chars(cfg: &Config) -> (r: Vec<char>)
    ensures
        r@ == config_json(*cfg),
{
    let mut out: Vec<char> = Vec::new();
    push_lit(&mut out, "{\"sample_rate\":");
    push_dec(&mut out, cfg.sample_rate as u64);
    push_lit(&mut out, ",\"voice_speed_centi\":");
    push_dec(&mut out, cfg.voice_speed_centi as u64);
    push_lit(&mut out, ",\"voice_pitch_centi\":");
    push_dec(&mut out, cfg.voice_pitch_centi as u64);
    push_lit(&mut out, ",\"output_format\":\"");
    push_lit(&mut out, cfg.output_format.as_str());
    push_lit(&mut out, "\",\"quality_centi\":");
    push_dec(&mut out, cfg.quality_centi as u64);
    push_lit(&mut out, ",\"chunk_size\":");
    push_dec(&mut out, cfg.chunk_size as u64);
    push_lit(&mut out, ",\"max_workers\":");
    push_dec(&mut out, cfg.max_workers as u64);
    push_lit(&mut out, ",\"cache_enabled\":");
    if cfg.cache_enabled {
        push_lit(&mut out, "true");
    } else {
        push_lit(&mut out, "false");
    }
    push_lit(&mut out, ",\"preprocessing_aggressive\":");
    if cfg.preprocessing_aggressive {
        push_lit(&mut out, "true");
    } else {
        push_lit(&mut out, "false");
    }
    push_lit(&mut out, "}");
    proof {
        assert(out@ =~= config_json(*cfg));
    }
    out
}

/// Renders one chapter's metadata JSON.
pub fn metadata_json_string(
    title: &str,
    order: usize,
    word_count: usize,
    chunk_count: usize,
    cfg: &Config,
) -> (r: String)
    ensures
        r@ == metadata_json(title@, order as int, word_count as int, chunk_count as int, *cfg),
{
    let mut out: Vec<char> = Vec::new();
    push_lit(&mut out, "{\"title\":\"");
    let tv = chars_of(title);
    let esc = escape_json(&tv);
    append_chars(&mut out, &esc);
    push_lit(&mut out, "\",\"order\":");
    push_dec(&mut out, order as u64);
    push_lit(&mut out, ",\"word_count\":");
    push_dec(&mut out, word_count as u64);
    push_lit(&mut out, ",\"chunks\":");
    push_dec(&mut out, chunk_count as u64);
    push_lit(&mut out, ",\"config\":");
    let cj = config_json_chars(cfg);
    append_chars(&mut out, &cj);
    push_lit(&mut out, "}");
    proof {
        assert(out@ =~= metadata_json(
            title@,
            order as int,
            word_count as int,
            chunk_count as int,
            *cfg,
        ));
    }
    string_of(&out)
}

} // verus!
