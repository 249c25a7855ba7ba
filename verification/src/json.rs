//! The manifest's JSON document.
//!
//! The manifest is written as one UTF-8 JSON object with the schema's exact
//! field names, in declaration order: `metaVersion`, `host`, `exportedAt`,
//! `emojis`; each record `downloaded`, `fileName`, `emoji`; each emoji
//! `name`, `category`, `aliases`. String values are escaped: quote and
//! backslash get a backslash, control characters become `\u00` escapes.

use vstd::prelude::*;
use vstd::string::StringExecFns;

use crate::manifest::EmojiData;
use crate::manifest::EmojiRecord;
use crate::manifest::Manifest;
use crate::manifest::RecordView;
use crate::manifest::record_view;
use crate::manifest::records_view;
use crate::text::chars_to_string;
use crate::text::str_to_chars;

verus! {

/// The lowercase hexadecimal digit for a value below sixteen.
pub open spec fn hex_digit(n: int) -> char {
    if n < 10 {
        ((48 + n) as u8) as char
    } else {
        ((87 + n) as u8) as char
    }
}

/// How one character appears inside a JSON string literal.
pub open spec fn escape_char(c: char) -> Seq<char> {
    if c == '"' {
        seq!['\\', '"']
    } else if c == '\\' {
        seq!['\\', '\\']
    } else if (c as u32) < 32 {
        seq!['\\', 'u', '0', '0', hex_digit(c as u32 as int / 16), hex_digit(c as u32 as int % 16)]
    } else {
        seq![c]
    }
}

pub open spec fn escape_seq(s: Seq<char>) -> Seq<char>
    decreases s.len(),
{
    if s.len() == 0 {
        Seq::empty()
    } else {
        escape_seq(s.drop_last()) + escape_char(s.last())
    }
}

/// A JSON string literal holding exactly the characters of `s`.
pub open spec fn json_string(s: Seq<char>) -> Seq<char> {
    seq!['"'] + escape_seq(s) + seq!['"']
}

pub open spec fn json_bool(b: bool) -> Seq<char> {
    if b {
        "true"@
    } else {
        "false"@
    }
}

/// The decimal digits of `n`, most significant first.
pub open spec fn dec_digits(n: nat) -> Seq<char>
    decreases n,
{
    if n < 10 {
        seq![((48 + n) as u8) as char]
    } else {
        dec_digits(n / 10) + seq![((48 + n % 10) as u8) as char]
    }
}

/// Comma-joined JSON string literals.
pub open spec fn json_string_list(items: Seq<Seq<char>>) -> Seq<char>
    decreases items.len(),
{
    if items.len() == 0 {
        Seq::empty()
    } else if items.len() == 1 {
        json_string(items[0])
    } else {
        json_string_list(items.drop_last()) + seq![','] + json_string(items.last())
    }
}

/// The JSON object for one emoji's descriptive data.
pub open spec fn json_emoji(name: Seq<char>, category: Seq<char>, aliases: Seq<Seq<char>>) -> Seq<
    char,
> {
    "{\"name\":"@ + json_string(name) + ",\"category\":"@ + json_string(category)
        + ",\"aliases\":["@ + json_string_list(aliases) + "]}"@
}

/// The JSON object for one manifest record.
pub open spec fn json_record(r: RecordView) -> Seq<char> {
    "{\"downloaded\":"@ + json_bool(r.downloaded) + ",\"fileName\":"@ + json_string(r.file_name)
        + ",\"emoji\":"@ + json_emoji(r.name, r.category, r.aliases) + "}"@
}

/// Comma-joined record objects.
pub open spec fn json_records(rs: Seq<RecordView>) -> Seq<char>
    decreases rs.len(),
{
    if rs.len() == 0 {
        Seq::empty()
    } else if rs.len() == 1 {
        json_record(rs[0])
    } else {
        json_records(rs.drop_last()) + seq![','] + json_record(rs.last())
    }
}

/// The whole manifest document.
pub open spec fn json_manifest(
    meta_version: nat,
    host: Seq<char>,
    exported_at: Seq<char>,
    rs: Seq<RecordView>,
) -> Seq<char> {
    "{\"metaVersion\":"@ + dec_digits(meta_version) + ",\"host\":"@ + json_string(host)
        + ",\"exportedAt\":"@ + json_string(exported_at) + ",\"emojis\":["@ + json_records(rs)
        + "]}"@
}

fn hex_digit_exec(n: u32) -> (r: char)
    requires
        n < 16,
    ensures
        r == hex_digit(n as int),
{
    if n < 10 {
        ((48 + n) as u8) as char
    } else {
        ((87 + n) as u8) as char
    }
}

fn push_escaped(out: &mut Vec<char>, c: char)
    ensures
        final(out)@ == old(out)@ + escape_char(c),
{
    if c == '"' {
        out.push('\\');
        out.push('"');
    } else if c == '\\' {
        out.push('\\');
        out.push('\\');
    } else {
        let u = c as u32;
        if u < 32 {
            out.push('\\');
            out.push('u');
            out.push('0');
            out.push('0');
            let hi = hex_digit_exec(u / 16);
            out.push(hi);
            let lo = hex_digit_exec(u % 16);
            out.push(lo);
        } else {
            out.push(c);
        }
    }
    proof {
        assert(out@ =~= old(out)@ + escape_char(c));
    }
}

/// The JSON string literal holding exactly the characters of `s`.
pub fn json_string_exec(s: &str) -> (r: String)
    ensures
        r@ == json_string(s@),
{
    let chars = str_to_chars(s);
    let mut out: Vec<char> = Vec::new();
    out.push('"');
    let mut i: usize = 0;
    while i < chars.len()
        invariant
            i <= chars@.len(),
            chars@ == s@,
            out@ == seq!['"'] + escape_seq(s@.take(i as int)),
        decreases chars@.len() - i,
    {
        let c = chars[i];
        push_escaped(&mut out, c);
        proof {
            let t1 = s@.take(i + 1 as int);
            assert(t1.drop_last() =~= s@.take(i as int));
            assert(t1.last() == s@[i as int]);
            assert(out@ =~= seq!['"'] + escape_seq(t1));
        }
        i = i + 1;
    }
    out.push('"');
    proof {
        assert(s@.take(s@.len() as int) =~= s@);
        assert(out@ =~= json_string(s@));
    }
    chars_to_string(out)
}

fn push_dec(out: &mut Vec<char>, n: u32)
    ensures
        final(out)@ == old(out)@ + dec_digits(n as nat),
    decreases n,
{
    if n >= 10 {
        push_dec(out, n / 10);
        out.push(((48 + n % 10) as u8) as char);
        proof {
            assert(out@ =~= old(out)@ + dec_digits(n as nat));
        }
    } else {
        out.push(((48 + n) as u8) as char);
        proof {
            assert(out@ =~= old(out)@ + dec_digits(n as nat));
        }
    }
}

/// The decimal rendering of `n`.
fn dec_exec(n: u32) -> (r: String)
    ensures
        r@ == dec_digits(n as nat),
{
    let mut out: Vec<char> = Vec::new();
    push_dec(&mut out, n);
    proof {
        assert(out@ =~= dec_digits(n as nat));
    }
    chars_to_string(out)
}

fn json_emoji_exec(d: &EmojiData) -> (r: String)
    ensures
        r@ == json_emoji(d.name@, d.category@, d.aliases.deep_view()),
{
    let mut out = String::new();
    out.append("{\"name\":");
    let name = json_string_exec(d.name.as_str());
    out.append(name.as_str());
    out.append(",\"category\":");
    let category = json_string_exec(d.category.as_str());
    out.append(category.as_str());
    out.append(",\"aliases\":[");
    let mut i: usize = 0;
    while i < d.aliases.len()
        invariant
            i <= d.aliases@.len(),
            out@ == "{\"name\":"@ + json_string(d.name@) + ",\"category\":"@ + json_string(
                d.category@,
            ) + ",\"aliases\":["@ + json_string_list(d.aliases.deep_view().take(i as int)),
        decreases d.aliases@.len() - i,
    {
        if i > 0 {
            out.append(",");
            proof {
                reveal_strlit(",");
                assert(","@ =~= seq![',']);
            }
        }
        let item = json_string_exec(d.aliases[i].as_str());
        out.append(item.as_str());
        proof {
            let dv = d.aliases.deep_view();
            let t1 = dv.take(i + 1 as int);
            assert(dv[i as int] == d.aliases@[i as int]@);
            assert(t1.drop_last() =~= dv.take(i as int));
            assert(t1.last() == dv[i as int]);
            if i == 0 {
                assert(dv.take(0) =~= Seq::<Seq<char>>::empty());
            }
            assert(out@ =~= "{\"name\":"@ + json_string(d.name@) + ",\"category\":"@
                + json_string(d.category@) + ",\"aliases\":["@ + json_string_list(t1));
        }
        i = i + 1;
    }
    out.append("]}");
    proof {
        assert(d.aliases.deep_view().take(d.aliases.deep_view().len() as int) =~= d.aliases.deep_view());
        assert(out@ =~= json_emoji(d.name@, d.category@, d.aliases.deep_view()));
    }
    out
}

fn json_record_exec(rec: &EmojiRecord) -> (r: String)
    ensures
        r@ == json_record(record_view(*rec)),
{
    let mut out = String::new();
    out.append("{\"downloaded\":");
    if rec.downloaded {
        out.append("true");
    } else {
        out.append("false");
    }
    out.append(",\"fileName\":");
    let file_name = json_string_exec(rec.file_name.as_str());
    out.append(file_name.as_str());
    out.append(",\"emoji\":");
    let emoji = json_emoji_exec(&rec.emoji);
    out.append(emoji.as_str());
    out.append("}");
    proof {
        assert(out@ =~= json_record(record_view(*rec)));
    }
    out
}

/// Serializes a manifest as its JSON document: the schema's field names in
/// declaration order, every string escaped, the records in manifest order.
pub fn manifest_json(m: &Manifest) -> (r: String)
    ensures
        r@ == json_manifest(m.meta_version as nat, m.host@, m.exported_at@, records_view(m.emojis@)),
{
    let mut out = String::new();
    out.append("{\"metaVersion\":");
    let version = dec_exec(m.meta_version);
    out.append(version.as_str());
    out.append(",\"host\":");
    let host = json_string_exec(m.host.as_str());
    out.append(host.as_str());
    out.append(",\"exportedAt\":");
    let exported_at = json_string_exec(m.exported_at.as_str());
    out.append(exported_at.as_str());
    out.append(",\"emojis\":[");
    let ghost rv = records_view(m.emojis@);
    let ghost head = "{\"metaVersion\":"@ + dec_digits(m.meta_version as nat) + ",\"host\":"@
        + json_string(m.host@) + ",\"exportedAt\":"@ + json_string(m.exported_at@)
        + ",\"emojis\":["@;
    proof {
        assert(out@ =~= head);
    }
    let mut i: usize = 0;
    while i < m.emojis.len()
        invariant
            i <= m.emojis@.len(),
            rv == records_view(m.emojis@),
            rv.len() == m.emojis@.len(),
            out@ == head + json_records(rv.take(i as int)),
        decreases m.emojis@.len() - i,
    {
        if i > 0 {
            out.append(",");
            proof {
                reveal_strlit(",");
                assert(","@ =~= seq![',']);
            }
        }
        let rec = json_record_exec(&m.emojis[i]);
        out.append(rec.as_str());
        proof {
            let t1 = rv.take(i + 1 as int);
            assert(rv[i as int] == record_view(m.emojis@[i as int]));
            assert(t1.drop_last() =~= rv.take(i as int));
            assert(t1.last() == rv[i as int]);
            if i == 0 {
                assert(rv.take(0) =~= Seq::<RecordView>::empty());
            }
            assert(out@ =~= head + json_records(t1));
        }
        i = i + 1;
    }
    out.append("]}");
    proof {
        assert(rv.take(rv.len() as int) =~= rv);
        assert(out@ =~= json_manifest(
            m.meta_version as nat,
            m.host@,
            m.exported_at@,
            records_view(m.emojis@),
        ));
    }
    out
}

} // verus!
