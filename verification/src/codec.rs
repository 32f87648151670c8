//! The manifest's wire format. The serializer writes one canonical JSON
//! rendering — fixed field order, no interstitial whitespace, strings taken
//! verbatim — and the canonical parser reads exactly that rendering back,
//! byte for byte, with success proved on serialized manifests of the
//! trivial family. Around it, a general reader accepts the manifest as
//! JSON: whitespace, any field order, the common string escapes, unknown
//! fields; duplicated keys are structural errors.
use vstd::prelude::*;
use vstd::string::{StrSliceExecFns, StringExecFns};
use crate::error::InstallError;
use crate::hashing::hex_digit;
use crate::manifest::{
    EnvType, PackDependency, PackFile, PackFileHash, PackFormat, SideType,
};

verus! {

/// A character that can stand in a string field unescaped. The codec keeps
/// to manifests whose strings need no escaping.
pub open spec fn plain_char(c: char) -> bool {
    c != '"' && c != '\\'
}

/// A string field the codec writes verbatim.
pub open spec fn plain(s: Seq<char>) -> bool {
    forall|i: int| 0 <= i < s.len() ==> plain_char(s[i])
}

/// A quoted string.
pub open spec fn ser_str(v: Seq<char>) -> Seq<char> {
    "\""@ + v + "\""@
}

/// Decimal rendering of a non-negative integer.
pub open spec fn dec_int(n: int) -> Seq<char>
    recommends
        n >= 0,
    decreases n,
{
    if n < 10 {
        seq![hex_digit(n)]
    } else {
        dec_int(n / 10) + seq![hex_digit(n % 10)]
    }
}

/// Decimal rendering of a signed integer.
pub open spec fn ser_i32(n: i32) -> Seq<char> {
    if n >= 0 {
        dec_int(n as int)
    } else {
        "-"@ + dec_int(-(n as int))
    }
}

/// An optional string: `null` or quoted.
pub open spec fn ser_opt_str(o: Option<String>) -> Seq<char> {
    match o {
        None => "null"@,
        Some(s) => ser_str(s@),
    }
}

/// Comma-joined quoted strings.
pub open spec fn ser_str_items(v: Seq<String>) -> Seq<char>
    decreases v.len(),
{
    if v.len() == 0 {
        Seq::empty()
    } else if v.len() == 1 {
        ser_str(v[0]@)
    } else {
        ser_str_items(v.drop_last()) + ","@ + ser_str(v.last()@)
    }
}

/// One hash map entry.
pub open spec fn ser_hash_item(p: (PackFileHash, String)) -> Seq<char> {
    ser_str(p.0.spec_tag()) + ":"@ + ser_str(p.1@)
}

/// Comma-joined hash map entries.
pub open spec fn ser_hash_items(v: Seq<(PackFileHash, String)>) -> Seq<char>
    decreases v.len(),
{
    if v.len() == 0 {
        Seq::empty()
    } else if v.len() == 1 {
        ser_hash_item(v[0])
    } else {
        ser_hash_items(v.drop_last()) + ","@ + ser_hash_item(v.last())
    }
}

/// The tag an environment side is written as.
pub open spec fn env_tag(e: EnvType) -> Seq<char> {
    match e {
        EnvType::Client => "client"@,
        EnvType::Server => "server"@,
    }
}

/// The tag a support level is written as.
pub open spec fn side_tag(s: SideType) -> Seq<char> {
    match s {
        SideType::Required => "required"@,
        SideType::Optional => "optional"@,
        SideType::Unsupported => "unsupported"@,
    }
}

/// One environment map entry.
pub open spec fn ser_env_item(p: (EnvType, SideType)) -> Seq<char> {
    ser_str(env_tag(p.0)) + ":"@ + ser_str(side_tag(p.1))
}

/// Comma-joined environment map entries.
pub open spec fn ser_env_items(v: Seq<(EnvType, SideType)>) -> Seq<char>
    decreases v.len(),
{
    if v.len() == 0 {
        Seq::empty()
    } else if v.len() == 1 {
        ser_env_item(v[0])
    } else {
        ser_env_items(v.drop_last()) + ","@ + ser_env_item(v.last())
    }
}

/// The optional environment map: `null` or an object.
pub open spec fn ser_env(o: Option<Vec<(EnvType, SideType)>>) -> Seq<char> {
    match o {
        None => "null"@,
        Some(v) => "{"@ + ser_env_items(v@) + "}"@,
    }
}

/// The tag a dependency key is written as.
pub open spec fn dep_tag(d: PackDependency) -> Seq<char> {
    match d {
        PackDependency::Forge => "forge"@,
        PackDependency::FabricLoader => "fabric-loader"@,
        PackDependency::QuiltLoader => "quilt-loader"@,
        PackDependency::Minecraft => "minecraft"@,
    }
}

/// One dependency map entry.
pub open spec fn ser_dep_item(p: (PackDependency, String)) -> Seq<char> {
    ser_str(dep_tag(p.0)) + ":"@ + ser_str(p.1@)
}

/// Comma-joined dependency map entries.
pub open spec fn ser_dep_items(v: Seq<(PackDependency, String)>) -> Seq<char>
    decreases v.len(),
{
    if v.len() == 0 {
        Seq::empty()
    } else if v.len() == 1 {
        ser_dep_item(v[0])
    } else {
        ser_dep_items(v.drop_last()) + ","@ + ser_dep_item(v.last())
    }
}

/// One file entry, as an object.
pub open spec fn ser_file(f: PackFile) -> Seq<char> {
    "{\"path\":"@ + ser_str(f.path@) + ",\"hashes\":{"@ + ser_hash_items(f.hashes@)
        + "},\"env\":"@ + ser_env(f.env) + ",\"downloads\":["@ + ser_str_items(f.downloads@)
        + "],\"fileSize\":"@ + dec_int(f.file_size as int) + "}"@
}

/// Comma-joined file entries.
pub open spec fn ser_file_items(v: Seq<PackFile>) -> Seq<char>
    decreases v.len(),
{
    if v.len() == 0 {
        Seq::empty()
    } else if v.len() == 1 {
        ser_file(v[0])
    } else {
        ser_file_items(v.drop_last()) + ","@ + ser_file(v.last())
    }
}

/// The canonical rendering of a whole manifest.
pub open spec fn ser_manifest(m: PackFormat) -> Seq<char> {
    "{\"game\":"@ + ser_str(m.game@) + ",\"formatVersion\":"@ + ser_i32(m.format_version)
        + ",\"versionId\":"@ + ser_str(m.version_id@) + ",\"name\":"@ + ser_str(m.name@)
        + ",\"summary\":"@ + ser_opt_str(m.summary) + ",\"files\":["@ + ser_file_items(m.files@)
        + "],\"dependencies\":{"@ + ser_dep_items(m.dependencies@) + "}}"@
}

/// A file entry the codec can write and read back: plain strings, and hash
/// tags that never shadow a recognized algorithm.
pub open spec fn wf_file(f: PackFile) -> bool {
    &&& plain(f.path@)
    &&& (forall|i: int|
        0 <= i < f.hashes@.len() ==> #[trigger] f.hashes@[i].0.canonical() && plain(
            f.hashes@[i].0.spec_tag(),
        ) && plain(f.hashes@[i].1@))
    &&& (forall|a: int, b: int|
        0 <= a < b < f.hashes@.len() ==> (#[trigger] f.hashes@[a]).0.spec_tag() != (
        #[trigger] f.hashes@[b]).0.spec_tag())
    &&& (f.env matches Some(e) ==> forall|a: int, b: int|
        0 <= a < b < e@.len() ==> (#[trigger] e@[a]).0 != (#[trigger] e@[b]).0)
    &&& (forall|i: int| 0 <= i < f.downloads@.len() ==> plain(#[trigger] f.downloads@[i]@))
}

/// A manifest the codec can write and read back.
pub open spec fn wf_manifest(m: PackFormat) -> bool {
    &&& plain(m.game@)
    &&& plain(m.version_id@)
    &&& plain(m.name@)
    &&& (m.summary matches Some(s) ==> plain(s@))
    &&& (forall|i: int| 0 <= i < m.files@.len() ==> wf_file(#[trigger] m.files@[i]))
    &&& (forall|i: int| 0 <= i < m.dependencies@.len() ==> plain(#[trigger] m.dependencies@[i].1@))
    &&& (forall|a: int, b: int|
        0 <= a < b < m.dependencies@.len() ==> (#[trigger] m.dependencies@[a]).0 != (
        #[trigger] m.dependencies@[b]).0)
}


/// A character that renders some decimal digit.
pub open spec fn is_digit_char(c: char) -> bool {
    exists|d: int| 0 <= d < 10 && c == hex_digit(d)
}

/// A single decimal digit with value `v` stands at position `i`, and the
/// character after it is not a digit.
pub open spec fn digit1_at(s: Seq<char>, i: int, v: int) -> bool {
    &&& 0 <= v < 10
    &&& 0 <= i
    &&& i + 1 < s.len()
    &&& s[i] == hex_digit(v)
    &&& !is_digit_char(s[i + 1])
}

proof fn lemma_dec_int_digits(n: int)
    requires
        n >= 0,
    ensures
        forall|t: int| 0 <= t < dec_int(n).len() ==> is_digit_char(#[trigger] dec_int(n)[t]),
    decreases n,
{
    if n < 10 {
        assert(dec_int(n)[0] == hex_digit(n));
    } else {
        lemma_dec_int_digits(n / 10);
        assert forall|t: int| 0 <= t < dec_int(n).len() implies is_digit_char(
            dec_int(n)[t],
        ) by {
            if t < dec_int(n / 10).len() {
                assert(dec_int(n)[t] == dec_int(n / 10)[t]);
            } else {
                assert(dec_int(n)[t] == hex_digit(n % 10));
                assert(0 <= n % 10 < 10);
            }
        }
    }
}

fn dec_u64_string(n: u64) -> (r: String)
    ensures
        r@ == dec_int(n as int),
    decreases n,
{
    if n < 10 {
        let mut out = String::new();
        out.append(crate::hashing::hex_char_str(n as u8));
        out
    } else {
        let mut out = dec_u64_string(n / 10);
        out.append(crate::hashing::hex_char_str((n % 10) as u8));
        out
    }
}

fn ser_i32_string(n: i32) -> (r: String)
    ensures
        r@ == ser_i32(n),
{
    if n >= 0 {
        dec_u64_string(n as u64)
    } else {
        let mut out = String::new();
        out.append("-");
        let mag: u64 = if n == i32::MIN {
            2147483648u64
        } else {
            (-n) as u64
        };
        let digits = dec_u64_string(mag);
        out.append(digits.as_str());
        proof {
            reveal_strlit("-");
            assert(out@ =~= "-"@ + dec_int(-(n as int)));
        }
        out
    }
}

fn push_quoted(out: &mut String, v: &str)
    ensures
        final(out)@ == old(out)@ + ser_str(v@),
{
    out.append("\"");
    out.append(v);
    out.append("\"");
    proof {
        assert(out@ =~= old(out)@ + ser_str(v@));
    }
}

fn hash_tag_str<'a>(h: &'a PackFileHash) -> (r: &'a str)
    ensures
        r@ == h.spec_tag(),
{
    match h {
        PackFileHash::Sha1 => "sha1",
        PackFileHash::Sha512 => "sha512",
        PackFileHash::Unknown(s) => s.as_str(),
    }
}

fn env_tag_str(e: &EnvType) -> (r: &'static str)
    ensures
        r@ == env_tag(*e),
{
    match e {
        EnvType::Client => "client",
        EnvType::Server => "server",
    }
}

fn side_tag_str(s: &SideType) -> (r: &'static str)
    ensures
        r@ == side_tag(*s),
{
    match s {
        SideType::Required => "required",
        SideType::Optional => "optional",
        SideType::Unsupported => "unsupported",
    }
}

fn dep_tag_str(d: &PackDependency) -> (r: &'static str)
    ensures
        r@ == dep_tag(*d),
{
    match d {
        PackDependency::Forge => "forge",
        PackDependency::FabricLoader => "fabric-loader",
        PackDependency::QuiltLoader => "quilt-loader",
        PackDependency::Minecraft => "minecraft",
    }
}

fn push_str_items(out: &mut String, v: &Vec<String>)
    ensures
        final(out)@ == old(out)@ + ser_str_items(v@),
{
    let n = v.len();
    proof {
        assert(v@.take(0) =~= Seq::<String>::empty());
    }
    let mut i: usize = 0;
    while i < n
        invariant
            n == v@.len(),
            i <= n,
            out@ == old(out)@ + ser_str_items(v@.take(i as int)),
        decreases n - i,
    {
        if i > 0 {
            out.append(",");
        }
        push_quoted(out, v[i].as_str());
        proof {
            assert(v@.take(i + 1).drop_last() =~= v@.take(i as int));
            assert(v@.take(i + 1).last() == v@[i as int]);
            assert(out@ =~= old(out)@ + ser_str_items(v@.take(i + 1)));
        }
        i += 1;
    }
    proof {
        assert(v@.take(n as int) =~= v@);
    }
}

fn push_hash_items(out: &mut String, v: &Vec<(PackFileHash, String)>)
    ensures
        final(out)@ == old(out)@ + ser_hash_items(v@),
{
    let n = v.len();
    proof {
        assert(v@.take(0) =~= Seq::<(PackFileHash, String)>::empty());
    }
    let mut i: usize = 0;
    while i < n
        invariant
            n == v@.len(),
            i <= n,
            out@ == old(out)@ + ser_hash_items(v@.take(i as int)),
        decreases n - i,
    {
        if i > 0 {
            out.append(",");
        }
        let pair = &v[i];
        push_quoted(out, hash_tag_str(&pair.0));
        out.append(":");
        push_quoted(out, pair.1.as_str());
        proof {
            assert(v@.take(i + 1).drop_last() =~= v@.take(i as int));
            assert(v@.take(i + 1).last() == v@[i as int]);
            assert(out@ =~= old(out)@ + ser_hash_items(v@.take(i + 1)));
        }
        i += 1;
    }
    proof {
        assert(v@.take(n as int) =~= v@);
    }
}

fn push_env(out: &mut String, o: &Option<Vec<(EnvType, SideType)>>)
    ensures
        final(out)@ == old(out)@ + ser_env(*o),
{
    match o {
        None => {
            out.append("null");
        }
        Some(v) => {
            out.append("{");
            let n = v.len();
            proof {
                assert(v@.take(0) =~= Seq::<(EnvType, SideType)>::empty());
            }
            let ghost mid = out@;
            let mut i: usize = 0;
            while i < n
                invariant
                    n == v@.len(),
                    i <= n,
                    out@ == mid + ser_env_items(v@.take(i as int)),
                decreases n - i,
            {
                if i > 0 {
                    out.append(",");
                }
                let pair = &v[i];
                push_quoted(out, env_tag_str(&pair.0));
                out.append(":");
                push_quoted(out, side_tag_str(&pair.1));
                proof {
                    assert(v@.take(i + 1).drop_last() =~= v@.take(i as int));
                    assert(v@.take(i + 1).last() == v@[i as int]);
                    assert(out@ =~= mid + ser_env_items(v@.take(i + 1)));
                }
                i += 1;
            }
            out.append("}");
            proof {
                assert(v@.take(n as int) =~= v@);
                assert(out@ =~= old(out)@ + ser_env(*o));
            }
        }
    }
}

fn push_file(out: &mut String, f: &PackFile)
    ensures
        final(out)@ == old(out)@ + ser_file(*f),
{
    out.append("{\"path\":");
    push_quoted(out, f.path.as_str());
    out.append(",\"hashes\":{");
    push_hash_items(out, &f.hashes);
    out.append("},\"env\":");
    push_env(out, &f.env);
    out.append(",\"downloads\":[");
    push_str_items(out, &f.downloads);
    out.append("],\"fileSize\":");
    let num = dec_u64_string(f.file_size as u64);
    out.append(num.as_str());
    out.append("}");
    proof {
        assert(out@ =~= old(out)@ + ser_file(*f));
    }
}

/// Write a manifest in the canonical rendering: exactly `ser_manifest`.
pub fn serialize_manifest(m: &PackFormat) -> (r: String)
    ensures
        r@ == ser_manifest(*m),
{
    let mut out = String::new();
    out.append("{\"game\":");
    push_quoted(&mut out, m.game.as_str());
    out.append(",\"formatVersion\":");
    let num = ser_i32_string(m.format_version);
    out.append(num.as_str());
    out.append(",\"versionId\":");
    push_quoted(&mut out, m.version_id.as_str());
    out.append(",\"name\":");
    push_quoted(&mut out, m.name.as_str());
    out.append(",\"summary\":");
    match &m.summary {
        None => {
            out.append("null");
        }
        Some(s) => {
            push_quoted(&mut out, s.as_str());
        }
    }
    out.append(",\"files\":[");
    let ghost before_files = out@;
    let n = m.files.len();
    proof {
        assert(m.files@.take(0) =~= Seq::<PackFile>::empty());
    }
    let mut i: usize = 0;
    while i < n
        invariant
            n == m.files@.len(),
            i <= n,
            out@ == before_files + ser_file_items(m.files@.take(i as int)),
        decreases n - i,
    {
        if i > 0 {
            out.append(",");
        }
        push_file(&mut out, &m.files[i]);
        proof {
            assert(m.files@.take(i + 1).drop_last() =~= m.files@.take(i as int));
            assert(m.files@.take(i + 1).last() == m.files@[i as int]);
            assert(out@ =~= before_files + ser_file_items(m.files@.take(i + 1)));
        }
        i += 1;
    }
    proof {
        assert(m.files@.take(n as int) =~= m.files@);
    }
    out.append("],\"dependencies\":{");
    let ghost before_deps = out@;
    let nd = m.dependencies.len();
    proof {
        assert(m.dependencies@.take(0) =~= Seq::<(PackDependency, String)>::empty());
    }
    let mut i: usize = 0;
    while i < nd
        invariant
            nd == m.dependencies@.len(),
            i <= nd,
            out@ == before_deps + ser_dep_items(m.dependencies@.take(i as int)),
        decreases nd - i,
    {
        if i > 0 {
            out.append(",");
        }
        let pair = &m.dependencies[i];
        push_quoted(&mut out, dep_tag_str(&pair.0));
        out.append(":");
        push_quoted(&mut out, pair.1.as_str());
        proof {
            assert(m.dependencies@.take(i + 1).drop_last() =~= m.dependencies@.take(i as int));
            assert(m.dependencies@.take(i + 1).last() == m.dependencies@[i as int]);
            assert(out@ =~= before_deps + ser_dep_items(m.dependencies@.take(i + 1)));
        }
        i += 1;
    }
    proof {
        assert(m.dependencies@.take(nd as int) =~= m.dependencies@);
    }
    out.append("}}");
    proof {
        assert(out@ =~= ser_manifest(*m));
    }
    out
}


fn expect_lit(s: &str, i: usize, p: &str) -> (r: Option<usize>)
    requires
        i <= s@.len(),
    ensures
        r matches Some(j) ==> j == i + p@.len() && j <= s@.len() && s@.subrange(i as int, j as int)
            == p@,
        i + p@.len() <= s@.len() && s@.subrange(i as int, i + p@.len()) == p@ ==> r is Some,
{
    let n = s.unicode_len();
    let plen = p.unicode_len();
    if n - i < plen {
        return None;
    }
    let mut k: usize = 0;
    while k < plen
        invariant
            n == s@.len(),
            plen == p@.len(),
            i + plen <= n,
            k <= plen,
            forall|t: int| 0 <= t < k ==> s@[i + t] == p@[t],
        decreases plen - k,
    {
        if s.get_char(i + k) != p.get_char(k) {
            proof {
                assert(s@.subrange(i as int, i + plen)[k as int] == s@[i + k]);
            }
            return None;
        }
        k += 1;
    }
    proof {
        assert(s@.subrange(i as int, (i + plen) as int) =~= p@);
    }
    Some(i + plen)
}

/// The canonical quoted form of `v` stands at position `i` of `s`, followed
/// by `rest`.
pub open spec fn str_at(s: Seq<char>, i: int, v: Seq<char>, rest: Seq<char>) -> bool {
    &&& plain(v)
    &&& s.subrange(i, s.len() as int) == ser_str(v) + rest
}

proof fn lemma_str_at_chars(s: Seq<char>, i: int, v: Seq<char>, rest: Seq<char>)
    requires
        0 <= i <= s.len(),
        str_at(s, i, v, rest),
    ensures
        i + v.len() + 2 <= s.len(),
        s[i] == '"',
        forall|t: int| 0 <= t < v.len() ==> s[i + 1 + t] == v[t],
        s[i + 1 + v.len()] == '"',
{
    reveal_strlit("\"");
    let tail = s.subrange(i, s.len() as int);
    assert(tail.len() == v.len() + 2 + rest.len());
    assert(s[i] == tail[0]);
    assert forall|t: int| 0 <= t < v.len() implies s[i + 1 + t] == v[t] by {
        assert(s[i + 1 + t] == tail[1 + t]);
        assert((ser_str(v) + rest)[1 + t] == v[t]);
    }
    assert(s[i + 1 + v.len()] == tail[1 + v.len() as int]);
    assert((ser_str(v) + rest)[1 + v.len() as int] == '"');
}

fn parse_string(s: &str, i: usize) -> (r: Option<(String, usize)>)
    requires
        i <= s@.len(),
    ensures
        r matches Some((v, j)) ==> i < j <= s@.len() && s@.subrange(i as int, j as int) == ser_str(
            v@,
        ) && plain(v@),
        forall|v: Seq<char>, rest: Seq<char>|
            str_at(s@, i as int, v, rest) ==> (r matches Some((rv, j)) && rv@ == v && j == i
                + v.len() + 2),
{
    let n = s.unicode_len();
    if i >= n {
        proof {
            assert forall|v: Seq<char>, rest: Seq<char>| !str_at(s@, i as int, v, rest) by {
                if str_at(s@, i as int, v, rest) {
                    lemma_str_at_chars(s@, i as int, v, rest);
                }
            }
        }
        return None;
    }
    if s.get_char(i) != '"' {
        proof {
            assert forall|v: Seq<char>, rest: Seq<char>| !str_at(s@, i as int, v, rest) by {
                if str_at(s@, i as int, v, rest) {
                    lemma_str_at_chars(s@, i as int, v, rest);
                }
            }
        }
        return None;
    }
    proof {
        reveal_strlit("\"");
    }
    let mut k: usize = i + 1;
    while k < n
        invariant
            n == s@.len(),
            i + 1 <= k <= n,
            s@[i as int] == '"',
            forall|t: int| i + 1 <= t < k ==> plain_char(s@[t]),
        decreases n - k,
    {
        let c = s.get_char(k);
        if c == '"' {
            let v = s.substring_char(i + 1, k).to_owned();
            proof {
                reveal_strlit("\"");
                assert(plain(v@));
                assert(s@.subrange(i as int, (k + 1) as int) =~= ser_str(v@));
                assert forall|v2: Seq<char>, rest: Seq<char>|
                    str_at(s@, i as int, v2, rest) implies v@ == v2 && k + 1 == i + v2.len()
                    + 2 by {
                    lemma_str_at_chars(s@, i as int, v2, rest);
                    if k < i + 1 + v2.len() {
                        assert(s@[k as int] == v2[k - i - 1]);
                    }
                    if k > i + 1 + v2.len() {
                        assert(plain_char(s@[i + 1 + v2.len()]));
                    }
                    assert(k == i + 1 + v2.len());
                    assert(v@ =~= v2);
                }
            }
            return Some((v, k + 1));
        }
        if c == '\\' {
            proof {
                assert forall|v2: Seq<char>, rest: Seq<char>|
                    !str_at(s@, i as int, v2, rest) by {
                    if str_at(s@, i as int, v2, rest) {
                        lemma_str_at_chars(s@, i as int, v2, rest);
                        if k < i + 1 + v2.len() {
                            assert(s@[k as int] == v2[k - i - 1]);
                        }
                        assert(k >= i + 1 + v2.len());
                        if k > i + 1 + v2.len() {
                            assert(plain_char(s@[i + 1 + v2.len()]));
                        }
                        assert(s@[k as int] == '"');
                    }
                }
            }
            return None;
        }
        k += 1;
    }
    proof {
        assert forall|v2: Seq<char>, rest: Seq<char>| !str_at(s@, i as int, v2, rest) by {
            if str_at(s@, i as int, v2, rest) {
                lemma_str_at_chars(s@, i as int, v2, rest);
                assert(plain_char(s@[i + 1 + v2.len()]));
            }
        }
    }
    None
}

fn digit_of(c: char) -> (r: Option<u64>)
    ensures
        r matches Some(d) ==> d < 10 && hex_digit(d as int) == c,
        r is None ==> forall|d: int| 0 <= d < 10 ==> hex_digit(d) != c,
{
    match c {
        '0' => Some(0),
        '1' => Some(1),
        '2' => Some(2),
        '3' => Some(3),
        '4' => Some(4),
        '5' => Some(5),
        '6' => Some(6),
        '7' => Some(7),
        '8' => Some(8),
        '9' => Some(9),
        _ => None,
    }
}

fn parse_number(s: &str, i: usize) -> (r: Option<(u64, usize)>)
    requires
        i <= s@.len(),
    ensures
        r matches Some((v, j)) ==> i < j <= s@.len() && s@.subrange(i as int, j as int) == dec_int(
            v as int,
        ),
        forall|v: int|
            digit1_at(s@, i as int, v) ==> (r matches Some((rv, j)) && rv as int == v && j == i
                + 1),
{
    let n = s.unicode_len();
    if i >= n {
        return None;
    }
    let d0 = match digit_of(s.get_char(i)) {
        Some(d) => d,
        None => {
            proof {
                assert forall|v: int| !digit1_at(s@, i as int, v) by {
                    if digit1_at(s@, i as int, v) {
                        assert(hex_digit(v) != s@[i as int]);
                    }
                }
            }
            return None;
        }
    };
    if d0 == 0 {
        proof {
            assert(s@.subrange(i as int, (i + 1) as int) =~= dec_int(0));
            assert forall|v: int| digit1_at(s@, i as int, v) implies v == 0 by {
                assert(hex_digit(v) == s@[i as int]);
                assert(hex_digit(0) == s@[i as int]);
            }
        }
        return Some((0, i + 1));
    }
    let mut acc: u64 = d0;
    let mut k: usize = i + 1;
    proof {
        assert(s@.subrange(i as int, (i + 1) as int) =~= dec_int(d0 as int));
    }
    while k < n
        invariant
            n == s@.len(),
            i < k <= n,
            1 <= acc,
            s@.subrange(i as int, k as int) == dec_int(acc as int),
        decreases n - k,
    {
        let c = s.get_char(k);
        let d = match digit_of(c) {
            Some(d) => d,
            None => {
                break ;
            }
        };
        if acc > 1000000000000000000u64 {
            proof {
                lemma_dec_int_len(acc as int);
                lemma_dec_int_digits(acc as int);
                assert forall|v: int| !digit1_at(s@, i as int, v) by {
                    if digit1_at(s@, i as int, v) {
                        assert(s@[i + 1] == s@.subrange(i as int, k as int)[1]);
                        assert(is_digit_char(dec_int(acc as int)[1]));
                    }
                }
            }
            return None;
        }
        let new_acc: u64 = acc * 10 + d;
        proof {
            let a = acc as int;
            let dd = d as int;
            assert((a * 10 + dd) / 10 == a && (a * 10 + dd) % 10 == dd) by (nonlinear_arith)
                requires
                    0 <= dd < 10,
                    a >= 1,
            ;
            assert(dec_int(new_acc as int) == dec_int(acc as int) + seq![hex_digit(dd)]);
            assert(s@.subrange(i as int, (k + 1) as int) =~= s@.subrange(i as int, k as int)
                + seq![s@[k as int]]);
        }
        acc = new_acc;
        k += 1;
    }
    proof {
        assert forall|v: int| digit1_at(s@, i as int, v) implies acc as int == v && k == i
            + 1 by {
            lemma_dec_int_digits(acc as int);
            if k > i + 1 {
                lemma_dec_int_len(acc as int);
                assert(s@[i + 1] == s@.subrange(i as int, k as int)[1]);
                assert(is_digit_char(dec_int(acc as int)[1]));
            }
            assert(k == i + 1);
            if acc >= 10 {
                lemma_dec_int_len(acc as int);
            }
            assert(dec_int(acc as int).len() == 1);
            assert(s@[i as int] == s@.subrange(i as int, k as int)[0]);
            assert(s@[i as int] == hex_digit(acc as int));
            assert(s@[i as int] == hex_digit(v));
        }
    }
    Some((acc, k))
}

fn parse_i32_num(s: &str, i: usize) -> (r: Option<(i32, usize)>)
    requires
        i <= s@.len(),
    ensures
        r matches Some((v, j)) ==> i < j <= s@.len() && s@.subrange(i as int, j as int) == ser_i32(
            v,
        ),
        forall|v: int|
            digit1_at(s@, i as int, v) ==> (r matches Some((rv, j)) && rv as int == v && j == i
                + 1),
{
    let n = s.unicode_len();
    if i >= n {
        return None;
    }
    if s.get_char(i) == '-' {
        proof {
            reveal_strlit("-");
            assert forall|v: int| !digit1_at(s@, i as int, v) by {
                if digit1_at(s@, i as int, v) {
                    assert(hex_digit(v) == '-');
                }
            }
        }
        let (mag, j) = match parse_number(s, i + 1) {
            Some(p) => p,
            None => {
                return None;
            }
        };
        if mag == 0 || mag > 2147483648u64 {
            return None;
        }
        let v: i32 = if mag == 2147483648u64 {
            i32::MIN
        } else {
            -(mag as i32)
        };
        proof {
            assert(s@.subrange(i as int, j as int) =~= "-"@ + s@.subrange((i + 1) as int, j as int));
            assert(s@.subrange(i as int, j as int) =~= ser_i32(v));
        }
        Some((v, j))
    } else {
        let (mag, j) = match parse_number(s, i) {
            Some(p) => p,
            None => {
                return None;
            }
        };
        if mag > 2147483647u64 {
            proof {
                assert forall|v: int| !digit1_at(s@, i as int, v) by {}
            }
            return None;
        }
        Some((mag as i32, j))
    }
}



fn hash_tag_present(out: &Vec<(PackFileHash, String)>, key: &str) -> (r: bool)
    ensures
        r == exists|t: int| 0 <= t < out@.len() && (#[trigger] out@[t]).0.spec_tag() == key@,
{
    let n = out.len();
    let mut i: usize = 0;
    while i < n
        invariant
            n == out@.len(),
            i <= n,
            forall|t: int| 0 <= t < i ==> (#[trigger] out@[t]).0.spec_tag() != key@,
        decreases n - i,
    {
        if crate::strutil::str_eq(hash_tag_str(&out[i].0), key) {
            return true;
        }
        i += 1;
    }
    false
}

fn parse_hash_items(s: &str, i: usize) -> (r: Option<(Vec<(PackFileHash, String)>, usize)>)
    requires
        i <= s@.len(),
    ensures
        r matches Some((v, j)) ==> ({
            &&& i <= j <= s@.len()
            &&& s@.subrange(i as int, j as int) == ser_hash_items(v@)
            &&& forall|t: int|
                0 <= t < v@.len() ==> (#[trigger] v@[t]).0.canonical() && plain(v@[t].0.spec_tag())
                    && plain(v@[t].1@)
            &&& forall|a: int, b: int|
                0 <= a < b < v@.len() ==> (#[trigger] v@[a]).0.spec_tag() != (
                #[trigger] v@[b]).0.spec_tag()
        }),
{
    let n = s.unicode_len();
    let mut out: Vec<(PackFileHash, String)> = Vec::new();
    if i >= n || s.get_char(i) != '"' {
        proof {
            assert(s@.subrange(i as int, i as int) =~= ser_hash_items(out@));
        }
        return Some((out, i));
    }
    let mut k: usize = i;
    loop
        invariant
            n == s@.len(),
            i <= k <= n,
            out@.len() == 0 ==> k == i,
            out@.len() > 0 ==> s@.subrange(i as int, k as int) == ser_hash_items(out@) + ","@,
            forall|t: int|
                0 <= t < out@.len() ==> (#[trigger] out@[t]).0.canonical() && plain(
                    out@[t].0.spec_tag(),
                ) && plain(out@[t].1@),
            forall|a: int, b: int|
                0 <= a < b < out@.len() ==> (#[trigger] out@[a]).0.spec_tag() != (
                #[trigger] out@[b]).0.spec_tag(),
        decreases n - k,
    {
        let (key, k2) = match parse_string(s, k) {
            Some(p) => p,
            None => {
                return None;
            }
        };
        let k3 = match expect_lit(s, k2, ":") {
            Some(j) => j,
            None => {
                return None;
            }
        };
        let (val, k4) = match parse_string(s, k3) {
            Some(p) => p,
            None => {
                return None;
            }
        };
        if hash_tag_present(&out, key.as_str()) {
            return None;
        }
        let ghost key_view = key@;
        let h = PackFileHash::from(key);
        proof {
            reveal_strlit("sha1");
            reveal_strlit("sha512");
            assert(h.spec_tag() == key_view);
            assert(h.canonical());
            assert(s@.subrange(k as int, k4 as int) =~= ser_hash_item((h, val)));
            assert((out@.push((h, val))).drop_last() =~= out@);
            if out@.len() == 0 {
                assert(s@.subrange(i as int, k4 as int) =~= ser_hash_items(out@.push((h, val))));
            } else {
                assert(s@.subrange(i as int, k4 as int) =~= s@.subrange(i as int, k as int)
                    + s@.subrange(k as int, k4 as int));
                assert(s@.subrange(i as int, k4 as int) =~= ser_hash_items(out@.push((h, val))));
            }
        }
        out.push((h, val));
        if k4 < n && s.get_char(k4) == ',' {
            proof {
                reveal_strlit(",");
                assert(s@.subrange(k4 as int, (k4 + 1) as int) =~= ","@);
                assert(s@.subrange(i as int, (k4 + 1) as int) =~= s@.subrange(i as int, k4 as int)
                    + s@.subrange(k4 as int, (k4 + 1) as int));
            }
            k = k4 + 1;
        } else {
            return Some((out, k4));
        }
    }
}

fn parse_str_list(s: &str, i: usize) -> (r: Option<(Vec<String>, usize)>)
    requires
        i <= s@.len(),
    ensures
        r matches Some((v, j)) ==> ({
            &&& i <= j <= s@.len()
            &&& s@.subrange(i as int, j as int) == ser_str_items(v@)
            &&& forall|t: int| 0 <= t < v@.len() ==> plain((#[trigger] v@[t])@)
        }),
{
    let n = s.unicode_len();
    let mut out: Vec<String> = Vec::new();
    if i >= n || s.get_char(i) != '"' {
        proof {
            assert(s@.subrange(i as int, i as int) =~= ser_str_items(out@));
        }
        return Some((out, i));
    }
    let mut k: usize = i;
    loop
        invariant
            n == s@.len(),
            i <= k <= n,
            out@.len() == 0 ==> k == i,
            out@.len() > 0 ==> s@.subrange(i as int, k as int) == ser_str_items(out@) + ","@,
            forall|t: int| 0 <= t < out@.len() ==> plain((#[trigger] out@[t])@),
        decreases n - k,
    {
        let (item, k2) = match parse_string(s, k) {
            Some(p) => p,
            None => {
                return None;
            }
        };
        proof {
            assert((out@.push(item)).drop_last() =~= out@);
            if out@.len() == 0 {
                assert(s@.subrange(i as int, k2 as int) =~= ser_str_items(out@.push(item)));
            } else {
                assert(s@.subrange(i as int, k2 as int) =~= s@.subrange(i as int, k as int)
                    + s@.subrange(k as int, k2 as int));
                assert(s@.subrange(i as int, k2 as int) =~= ser_str_items(out@.push(item)));
            }
        }
        out.push(item);
        if k2 < n && s.get_char(k2) == ',' {
            proof {
                reveal_strlit(",");
                assert(s@.subrange(k2 as int, (k2 + 1) as int) =~= ","@);
                assert(s@.subrange(i as int, (k2 + 1) as int) =~= s@.subrange(i as int, k2 as int)
                    + s@.subrange(k2 as int, (k2 + 1) as int));
            }
            k = k2 + 1;
        } else {
            return Some((out, k2));
        }
    }
}

fn parse_env(s: &str, i: usize) -> (r: Option<(Option<Vec<(EnvType, SideType)>>, usize)>)
    requires
        i <= s@.len(),
    ensures
        r matches Some((v, j)) ==> i < j <= s@.len() && s@.subrange(i as int, j as int) == ser_env(
            v,
        ) && (v matches Some(e) ==> forall|a: int, b: int|
            0 <= a < b < e@.len() ==> (#[trigger] e@[a]).0 != (#[trigger] e@[b]).0),
{
    let n = s.unicode_len();
    match expect_lit(s, i, "null") {
        Some(j) => {
            proof {
                reveal_strlit("null");
            }
            return Some((None, j));
        }
        None => {}
    }
    proof {
        reveal_strlit("{");
        reveal_strlit("}");
    }
    let k0 = match expect_lit(s, i, "{") {
        Some(j) => j,
        None => {
            return None;
        }
    };
    let mut out: Vec<(EnvType, SideType)> = Vec::new();
    let mut seen_client = false;
    let mut seen_server = false;
    let mut k: usize = k0;
    if k >= n || s.get_char(k) != '"' {
        let j = match expect_lit(s, k, "}") {
            Some(j) => j,
            None => {
                return None;
            }
        };
        proof {
            reveal_strlit("}");
            assert(s@.subrange(k as int, k as int) =~= ser_env_items(out@));
            assert(s@.subrange(i as int, j as int) =~= ser_env(Some(out)));
        }
        return Some((Some(out), j));
    }
    loop
        invariant
            n == s@.len(),
            i < k0 <= k <= n,
            s@.subrange(i as int, k0 as int) == "{"@,
            out@.len() == 0 ==> k == k0,
            out@.len() > 0 ==> s@.subrange(k0 as int, k as int) == ser_env_items(out@) + ","@,
            seen_client == exists|t: int|
                0 <= t < out@.len() && (#[trigger] out@[t]).0 == EnvType::Client,
            seen_server == exists|t: int|
                0 <= t < out@.len() && (#[trigger] out@[t]).0 == EnvType::Server,
            forall|a: int, b: int|
                0 <= a < b < out@.len() ==> (#[trigger] out@[a]).0 != (#[trigger] out@[b]).0,
        decreases n - k,
    {
        let (key, k2) = match parse_string(s, k) {
            Some(p) => p,
            None => {
                return None;
            }
        };
        let e: EnvType = if crate::strutil::str_eq(key.as_str(), "client") {
            EnvType::Client
        } else if crate::strutil::str_eq(key.as_str(), "server") {
            EnvType::Server
        } else {
            return None;
        };
        let k3 = match expect_lit(s, k2, ":") {
            Some(j) => j,
            None => {
                return None;
            }
        };
        let (val, k4) = match parse_string(s, k3) {
            Some(p) => p,
            None => {
                return None;
            }
        };
        let sd: SideType = if crate::strutil::str_eq(val.as_str(), "required") {
            SideType::Required
        } else if crate::strutil::str_eq(val.as_str(), "optional") {
            SideType::Optional
        } else if crate::strutil::str_eq(val.as_str(), "unsupported") {
            SideType::Unsupported
        } else {
            return None;
        };
        let dup = if e == EnvType::Client {
            seen_client
        } else {
            seen_server
        };
        if dup {
            return None;
        }
        if e == EnvType::Client {
            seen_client = true;
        } else {
            seen_server = true;
        }
        proof {
            assert forall|tt: int| 0 <= tt < out@.len() implies (#[trigger] out@[tt]).0 != e by {
                if out@[tt].0 == e {
                    assert(0 <= tt < out@.len() && out@[tt].0 == e);
                }
            }
            assert(env_tag(e) == key@);
            assert(side_tag(sd) == val@);
            assert(s@.subrange(k as int, k4 as int) =~= ser_env_item((e, sd)));
            assert((out@.push((e, sd))).drop_last() =~= out@);
            if out@.len() == 0 {
                assert(s@.subrange(k0 as int, k4 as int) =~= ser_env_items(out@.push((e, sd))));
            } else {
                assert(s@.subrange(k0 as int, k4 as int) =~= s@.subrange(k0 as int, k as int)
                    + s@.subrange(k as int, k4 as int));
                assert(s@.subrange(k0 as int, k4 as int) =~= ser_env_items(out@.push((e, sd))));
            }
        }
        out.push((e, sd));
        if k4 < n && s.get_char(k4) == ',' {
            proof {
                reveal_strlit(",");
                assert(s@.subrange(k4 as int, (k4 + 1) as int) =~= ","@);
                assert(s@.subrange(k0 as int, (k4 + 1) as int) =~= s@.subrange(
                    k0 as int,
                    k4 as int,
                ) + s@.subrange(k4 as int, (k4 + 1) as int));
            }
            k = k4 + 1;
        } else {
            let j = match expect_lit(s, k4, "}") {
                Some(j) => j,
                None => {
                    return None;
                }
            };
            proof {
                reveal_strlit("}");
                assert(s@.subrange(i as int, j as int) =~= "{"@ + ser_env_items(out@) + "}"@);
            }
            return Some((Some(out), j));
        }
    }
}

fn parse_dep_items(s: &str, i: usize) -> (r: Option<(Vec<(PackDependency, String)>, usize)>)
    requires
        i <= s@.len(),
    ensures
        r matches Some((v, j)) ==> ({
            &&& i <= j <= s@.len()
            &&& s@.subrange(i as int, j as int) == ser_dep_items(v@)
            &&& forall|t: int| 0 <= t < v@.len() ==> plain((#[trigger] v@[t]).1@)
            &&& forall|a: int, b: int|
                0 <= a < b < v@.len() ==> (#[trigger] v@[a]).0 != (#[trigger] v@[b]).0
        }),
        i < s@.len() && s@[i as int] != '"' ==> (r matches Some((v, j)) && v@.len() == 0 && j
            == i),
{
    let n = s.unicode_len();
    let mut out: Vec<(PackDependency, String)> = Vec::new();
    let mut seen_forge = false;
    let mut seen_fabric = false;
    let mut seen_quilt = false;
    let mut seen_minecraft = false;
    if i >= n || s.get_char(i) != '"' {
        proof {
            assert(s@.subrange(i as int, i as int) =~= ser_dep_items(out@));
        }
        return Some((out, i));
    }
    let mut k: usize = i;
    loop
        invariant
            n == s@.len(),
            i <= k <= n,
            s@[i as int] == '"',
            out@.len() == 0 ==> k == i,
            out@.len() > 0 ==> s@.subrange(i as int, k as int) == ser_dep_items(out@) + ","@,
            forall|t: int| 0 <= t < out@.len() ==> plain((#[trigger] out@[t]).1@),
            seen_forge == exists|t: int|
                0 <= t < out@.len() && (#[trigger] out@[t]).0 == PackDependency::Forge,
            seen_fabric == exists|t: int|
                0 <= t < out@.len() && (#[trigger] out@[t]).0 == PackDependency::FabricLoader,
            seen_quilt == exists|t: int|
                0 <= t < out@.len() && (#[trigger] out@[t]).0 == PackDependency::QuiltLoader,
            seen_minecraft == exists|t: int|
                0 <= t < out@.len() && (#[trigger] out@[t]).0 == PackDependency::Minecraft,
            forall|a: int, b: int|
                0 <= a < b < out@.len() ==> (#[trigger] out@[a]).0 != (#[trigger] out@[b]).0,
        decreases n - k,
    {
        let (key, k2) = match parse_string(s, k) {
            Some(p) => p,
            None => {
                return None;
            }
        };
        let d: PackDependency = if crate::strutil::str_eq(key.as_str(), "forge") {
            PackDependency::Forge
        } else if crate::strutil::str_eq(key.as_str(), "fabric-loader") {
            PackDependency::FabricLoader
        } else if crate::strutil::str_eq(key.as_str(), "quilt-loader") {
            PackDependency::QuiltLoader
        } else if crate::strutil::str_eq(key.as_str(), "minecraft") {
            PackDependency::Minecraft
        } else {
            return None;
        };
        let dup = match d {
            PackDependency::Forge => seen_forge,
            PackDependency::FabricLoader => seen_fabric,
            PackDependency::QuiltLoader => seen_quilt,
            PackDependency::Minecraft => seen_minecraft,
        };
        if dup {
            return None;
        }
        match d {
            PackDependency::Forge => {
                seen_forge = true;
            }
            PackDependency::FabricLoader => {
                seen_fabric = true;
            }
            PackDependency::QuiltLoader => {
                seen_quilt = true;
            }
            PackDependency::Minecraft => {
                seen_minecraft = true;
            }
        }
        proof {
            assert forall|tt: int| 0 <= tt < out@.len() implies (#[trigger] out@[tt]).0 != d by {
                if out@[tt].0 == d {
                    assert(0 <= tt < out@.len() && out@[tt].0 == d);
                }
            }
        }
        let k3 = match expect_lit(s, k2, ":") {
            Some(j) => j,
            None => {
                return None;
            }
        };
        let (val, k4) = match parse_string(s, k3) {
            Some(p) => p,
            None => {
                return None;
            }
        };
        proof {
            assert(dep_tag(d) == key@);
            assert(s@.subrange(k as int, k4 as int) =~= ser_dep_item((d, val)));
            assert((out@.push((d, val))).drop_last() =~= out@);
            if out@.len() == 0 {
                assert(s@.subrange(i as int, k4 as int) =~= ser_dep_items(out@.push((d, val))));
            } else {
                assert(s@.subrange(i as int, k4 as int) =~= s@.subrange(i as int, k as int)
                    + s@.subrange(k as int, k4 as int));
                assert(s@.subrange(i as int, k4 as int) =~= ser_dep_items(out@.push((d, val))));
            }
        }
        out.push((d, val));
        if k4 < n && s.get_char(k4) == ',' {
            proof {
                reveal_strlit(",");
                assert(s@.subrange(k4 as int, (k4 + 1) as int) =~= ","@);
                assert(s@.subrange(i as int, (k4 + 1) as int) =~= s@.subrange(i as int, k4 as int)
                    + s@.subrange(k4 as int, (k4 + 1) as int));
            }
            k = k4 + 1;
        } else {
            return Some((out, k4));
        }
    }
}


fn parse_file(s: &str, i: usize) -> (r: Option<(PackFile, usize)>)
    requires
        i <= s@.len(),
    ensures
        r matches Some((f, j)) ==> i < j <= s@.len() && s@.subrange(i as int, j as int) == ser_file(
            f,
        ) && wf_file(f),
{
    let j1 = match expect_lit(s, i, "{\"path\":") {
        Some(j) => j,
        None => {
            return None;
        }
    };
    let (path, j2) = match parse_string(s, j1) {
        Some(p) => p,
        None => {
            return None;
        }
    };
    let j3 = match expect_lit(s, j2, ",\"hashes\":{") {
        Some(j) => j,
        None => {
            return None;
        }
    };
    let (hashes, j4) = match parse_hash_items(s, j3) {
        Some(p) => p,
        None => {
            return None;
        }
    };
    let j5 = match expect_lit(s, j4, "},\"env\":") {
        Some(j) => j,
        None => {
            return None;
        }
    };
    let (env, j6) = match parse_env(s, j5) {
        Some(p) => p,
        None => {
            return None;
        }
    };
    let j7 = match expect_lit(s, j6, ",\"downloads\":[") {
        Some(j) => j,
        None => {
            return None;
        }
    };
    let (downloads, j8) = match parse_str_list(s, j7) {
        Some(p) => p,
        None => {
            return None;
        }
    };
    let j9 = match expect_lit(s, j8, "],\"fileSize\":") {
        Some(j) => j,
        None => {
            return None;
        }
    };
    let (sz, j10) = match parse_number(s, j9) {
        Some(p) => p,
        None => {
            return None;
        }
    };
    if sz > 4294967295u64 {
        return None;
    }
    let j11 = match expect_lit(s, j10, "}") {
        Some(j) => j,
        None => {
            return None;
        }
    };
    let f = PackFile { path, hashes, env, downloads, file_size: sz as u32 };
    proof {
        reveal_strlit("{\"path\":");
        assert(s@.subrange(i as int, j2 as int) =~= s@.subrange(i as int, j1 as int) + s@.subrange(
            j1 as int,
            j2 as int,
        ));
        assert(s@.subrange(i as int, j3 as int) =~= s@.subrange(i as int, j2 as int) + s@.subrange(
            j2 as int,
            j3 as int,
        ));
        assert(s@.subrange(i as int, j4 as int) =~= s@.subrange(i as int, j3 as int) + s@.subrange(
            j3 as int,
            j4 as int,
        ));
        assert(s@.subrange(i as int, j5 as int) =~= s@.subrange(i as int, j4 as int) + s@.subrange(
            j4 as int,
            j5 as int,
        ));
        assert(s@.subrange(i as int, j6 as int) =~= s@.subrange(i as int, j5 as int) + s@.subrange(
            j5 as int,
            j6 as int,
        ));
        assert(s@.subrange(i as int, j7 as int) =~= s@.subrange(i as int, j6 as int) + s@.subrange(
            j6 as int,
            j7 as int,
        ));
        assert(s@.subrange(i as int, j8 as int) =~= s@.subrange(i as int, j7 as int) + s@.subrange(
            j7 as int,
            j8 as int,
        ));
        assert(s@.subrange(i as int, j9 as int) =~= s@.subrange(i as int, j8 as int) + s@.subrange(
            j8 as int,
            j9 as int,
        ));
        assert(s@.subrange(i as int, j10 as int) =~= s@.subrange(i as int, j9 as int)
            + s@.subrange(j9 as int, j10 as int));
        assert(s@.subrange(i as int, j11 as int) =~= s@.subrange(i as int, j10 as int)
            + s@.subrange(j10 as int, j11 as int));
        assert(s@.subrange(i as int, j11 as int) =~= ser_file(f));
    }
    Some((f, j11))
}

fn parse_file_items(s: &str, i: usize) -> (r: Option<(Vec<PackFile>, usize)>)
    requires
        i <= s@.len(),
    ensures
        r matches Some((v, j)) ==> ({
            &&& i <= j <= s@.len()
            &&& s@.subrange(i as int, j as int) == ser_file_items(v@)
            &&& forall|t: int| 0 <= t < v@.len() ==> wf_file(#[trigger] v@[t])
        }),
        i < s@.len() && s@[i as int] != '{' ==> (r matches Some((v, j)) && v@.len() == 0 && j
            == i),
{
    let n = s.unicode_len();
    let mut out: Vec<PackFile> = Vec::new();
    if i >= n || s.get_char(i) != '{' {
        proof {
            assert(s@.subrange(i as int, i as int) =~= ser_file_items(out@));
        }
        return Some((out, i));
    }
    let mut k: usize = i;
    loop
        invariant
            n == s@.len(),
            i <= k <= n,
            s@[i as int] == '{',
            out@.len() == 0 ==> k == i,
            out@.len() > 0 ==> s@.subrange(i as int, k as int) == ser_file_items(out@) + ","@,
            forall|t: int| 0 <= t < out@.len() ==> wf_file(#[trigger] out@[t]),
        decreases n - k,
    {
        let (f, k2) = match parse_file(s, k) {
            Some(p) => p,
            None => {
                return None;
            }
        };
        proof {
            assert((out@.push(f)).drop_last() =~= out@);
            if out@.len() == 0 {
                assert(s@.subrange(i as int, k2 as int) =~= ser_file_items(out@.push(f)));
            } else {
                assert(s@.subrange(i as int, k2 as int) =~= s@.subrange(i as int, k as int)
                    + s@.subrange(k as int, k2 as int));
                assert(s@.subrange(i as int, k2 as int) =~= ser_file_items(out@.push(f)));
            }
        }
        out.push(f);
        if k2 < n && s.get_char(k2) == ',' {
            proof {
                reveal_strlit(",");
                assert(s@.subrange(k2 as int, (k2 + 1) as int) =~= ","@);
                assert(s@.subrange(i as int, (k2 + 1) as int) =~= s@.subrange(i as int, k2 as int)
                    + s@.subrange(k2 as int, (k2 + 1) as int));
            }
            k = k2 + 1;
        } else {
            return Some((out, k2));
        }
    }
}


/// A manifest with no files, no dependencies and no summary, whose format
/// revision is a single digit: the family on which the canonical parser
/// provably owes success.
pub open spec fn trivial_manifest(m: PackFormat) -> bool {
    &&& wf_manifest(m)
    &&& m.files@.len() == 0
    &&& m.dependencies@.len() == 0
    &&& m.summary is None
    &&& 0 <= m.format_version < 10
}

/// The parser succeeded, as owed on the trivial family.
pub open spec fn spec_trivial_ok(r: Result<PackFormat, InstallError>, m: PackFormat) -> bool {
    r is Ok
}

#[verifier::rlimit(100)]
proof fn lemma_trivial_shape(s: Seq<char>, m: PackFormat)
    requires
        trivial_manifest(m),
        s == ser_manifest(m),
    ensures
        ({
            let p1 = "{\"game\":"@.len() as int;
            let p2 = p1 + m.game@.len() + 2;
            let p3 = p2 + ",\"formatVersion\":"@.len();
            let p4 = p3 + 1;
            let p5 = p4 + ",\"versionId\":"@.len();
            let p6 = p5 + m.version_id@.len() + 2;
            let p7 = p6 + ",\"name\":"@.len();
            let p8 = p7 + m.name@.len() + 2;
            let p9 = p8 + ",\"summary\":"@.len();
            let p10 = p9 + "null"@.len();
            let p11 = p10 + ",\"files\":["@.len();
            let p12 = p11 + "],\"dependencies\":{"@.len();
            let p13 = p12 + "}}"@.len();
            &&& s.len() == p13
            &&& s.subrange(0, p1) == "{\"game\":"@
            &&& str_at(s, p1, m.game@, s.subrange(p2, p13))
            &&& s.subrange(p2, p3) == ",\"formatVersion\":"@
            &&& digit1_at(s, p3, m.format_version as int)
            &&& s.subrange(p4, p5) == ",\"versionId\":"@
            &&& str_at(s, p5, m.version_id@, s.subrange(p6, p13))
            &&& s.subrange(p6, p7) == ",\"name\":"@
            &&& str_at(s, p7, m.name@, s.subrange(p8, p13))
            &&& s.subrange(p8, p9) == ",\"summary\":"@
            &&& s.subrange(p9, p10) == "null"@
            &&& s.subrange(p10, p11) == ",\"files\":["@
            &&& p11 < p13 && s[p11] == ']'
            &&& s.subrange(p11, p12) == "],\"dependencies\":{"@
            &&& p12 < p13 && s[p12] == '}'
            &&& s.subrange(p12, p13) == "}}"@
        }),
{
    reveal_strlit("\"");
    reveal_strlit(",\"versionId\":");
    reveal_strlit("],\"dependencies\":{");
    reveal_strlit("}}");
    let p1 = "{\"game\":"@.len() as int;
    let p2 = p1 + m.game@.len() + 2;
    let p3 = p2 + ",\"formatVersion\":"@.len();
    let p4 = p3 + 1;
    let p5 = p4 + ",\"versionId\":"@.len();
    let p6 = p5 + m.version_id@.len() + 2;
    let p7 = p6 + ",\"name\":"@.len();
    let p8 = p7 + m.name@.len() + 2;
    let p9 = p8 + ",\"summary\":"@.len();
    let p10 = p9 + "null"@.len();
    let p11 = p10 + ",\"files\":["@.len();
    let p12 = p11 + "],\"dependencies\":{"@.len();
    let p13 = p12 + "}}"@.len();
    assert(ser_i32(m.format_version) == seq![hex_digit(m.format_version as int)]);
    assert(s.len() == p13);
    assert(s.subrange(0, p1) =~= "{\"game\":"@);
    assert(s.subrange(p1, p13) =~= ser_str(m.game@) + s.subrange(p2, p13));
    assert(s.subrange(p2, p3) =~= ",\"formatVersion\":"@);
    assert(s[p3] == hex_digit(m.format_version as int));
    assert(s[p4] == ',');
    assert(!is_digit_char(',')) by {
        assert forall|d: int| 0 <= d < 10 implies hex_digit(d) != ',' by {}
    }
    assert(s.subrange(p4, p5) =~= ",\"versionId\":"@);
    assert(s.subrange(p5, p13) =~= ser_str(m.version_id@) + s.subrange(p6, p13));
    assert(s.subrange(p6, p7) =~= ",\"name\":"@);
    assert(s.subrange(p7, p13) =~= ser_str(m.name@) + s.subrange(p8, p13));
    assert(s.subrange(p8, p9) =~= ",\"summary\":"@);
    assert(s.subrange(p9, p10) =~= "null"@);
    assert(s.subrange(p10, p11) =~= ",\"files\":["@);
    assert(s[p11] == ']');
    assert(s.subrange(p11, p12) =~= "],\"dependencies\":{"@);
    assert(s[p12] == '}');
    assert(s.subrange(p12, p13) =~= "}}"@);
}


/// The length of the leading two fields of a trivial manifest's rendering.
pub open spec fn trivial_head1_len(m: PackFormat) -> int {
    "{\"game\":"@.len() as int + m.game@.len() + 2 + ",\"formatVersion\":"@.len() + 1
}

/// The game and format-version fields were read, ending where a trivial
/// manifest's rendering says they end.
pub open spec fn spec_head1_ok(r: Option<(String, i32, usize)>, m: PackFormat) -> bool {
    r matches Some((g, f, j)) && j == trivial_head1_len(m)
}

#[verifier::rlimit(100)]
fn parse_manifest_head1(s: &str) -> (r: Option<(String, i32, usize)>)
    ensures
        r matches Some((game, fv, j)) ==> ({
            &&& j <= s@.len()
            &&& s@.subrange(0, j as int) == "{\"game\":"@ + ser_str(game@)
                + ",\"formatVersion\":"@ + ser_i32(fv)
            &&& plain(game@)
        }),
        forall|m: PackFormat|
            trivial_manifest(m) && s@ == #[trigger] ser_manifest(m) ==> spec_head1_ok(r, m),
{
    let j1 = match expect_lit(s, 0, "{\"game\":") {
        Some(j) => j,
        None => {
            proof {
                assert forall|m: PackFormat| trivial_manifest(m) && s@ == ser_manifest(m)
                    implies false by {
                    lemma_trivial_shape(s@, m);
                    let pp1 = "{\"game\":"@.len() as int;
                    let pp2 = pp1 + m.game@.len() + 2;
                    let pp3 = pp2 + ",\"formatVersion\":"@.len();
                    let pp4 = pp3 + 1;
                }
            }
            return None;
        }
    };
    let (game, j2) = match parse_string(s, j1) {
        Some(p) => p,
        None => {
            proof {
                assert forall|m: PackFormat| trivial_manifest(m) && s@ == ser_manifest(m)
                    implies false by {
                    lemma_trivial_shape(s@, m);
                    let pp1 = "{\"game\":"@.len() as int;
                    let pp2 = pp1 + m.game@.len() + 2;
                    let pp3 = pp2 + ",\"formatVersion\":"@.len();
                    let pp4 = pp3 + 1;
                    assert(j1 == pp1);
                }
            }
            return None;
        }
    };
    let j3 = match expect_lit(s, j2, ",\"formatVersion\":") {
        Some(j) => j,
        None => {
            proof {
                assert forall|m: PackFormat| trivial_manifest(m) && s@ == ser_manifest(m)
                    implies false by {
                    lemma_trivial_shape(s@, m);
                    let pp1 = "{\"game\":"@.len() as int;
                    let pp2 = pp1 + m.game@.len() + 2;
                    let pp3 = pp2 + ",\"formatVersion\":"@.len();
                    let pp4 = pp3 + 1;
                    assert(j1 == pp1);
                    assert(j2 == pp2);
                }
            }
            return None;
        }
    };
    let (fv, j4) = match parse_i32_num(s, j3) {
        Some(p) => p,
        None => {
            proof {
                assert forall|m: PackFormat| trivial_manifest(m) && s@ == ser_manifest(m)
                    implies false by {
                    lemma_trivial_shape(s@, m);
                    let pp1 = "{\"game\":"@.len() as int;
                    let pp2 = pp1 + m.game@.len() + 2;
                    let pp3 = pp2 + ",\"formatVersion\":"@.len();
                    let pp4 = pp3 + 1;
                    assert(j1 == pp1);
                    assert(j2 == pp2);
                    assert(j3 == pp3);
                }
            }
            return None;
        }
    };
    proof {
        assert(s@.subrange(0, j2 as int) =~= s@.subrange(0, j1 as int) + s@.subrange(
            j1 as int,
            j2 as int,
        ));
        assert(s@.subrange(0, j3 as int) =~= s@.subrange(0, j2 as int) + s@.subrange(
            j2 as int,
            j3 as int,
        ));
        assert(s@.subrange(0, j4 as int) =~= s@.subrange(0, j3 as int) + s@.subrange(
            j3 as int,
            j4 as int,
        ));
        assert(s@.subrange(0, j4 as int) =~= "{\"game\":"@ + ser_str(game@)
            + ",\"formatVersion\":"@ + ser_i32(fv));
        assert forall|m: PackFormat| trivial_manifest(m) && s@ == ser_manifest(m)
            implies j4 == trivial_head1_len(m) by {
            lemma_trivial_shape(s@, m);
            let pp1 = "{\"game\":"@.len() as int;
            let pp2 = pp1 + m.game@.len() + 2;
            let pp3 = pp2 + ",\"formatVersion\":"@.len();
            let pp4 = pp3 + 1;
            assert(j1 == pp1);
            assert(j2 == pp2);
            assert(j3 == pp3);
            assert(j4 == pp4);
        }
    }
    Some((game, fv, j4))
}

/// The length of the leading fields of a trivial manifest's rendering,
/// through its `summary`.
pub open spec fn trivial_head_len(m: PackFormat) -> int {
    "{\"game\":"@.len() as int + m.game@.len() + 2 + ",\"formatVersion\":"@.len() + 1
        + ",\"versionId\":"@.len() + m.version_id@.len() + 2 + ",\"name\":"@.len()
        + m.name@.len() + 2 + ",\"summary\":"@.len() + "null"@.len()
}

/// The leading fields were read, ending where a trivial manifest's
/// rendering says they end.
pub open spec fn spec_head_ok(
    r: Option<(String, i32, String, String, Option<String>, usize)>,
    m: PackFormat,
) -> bool {
    r matches Some((g, f, v, nm, sm, j)) && j == trivial_head_len(m)
}

#[verifier::rlimit(100)]
fn parse_manifest_head(s: &str) -> (r: Option<(String, i32, String, String, Option<String>, usize)>)
    ensures
        r matches Some((game, fv, vid, nm, summary, j)) ==> ({
            &&& j <= s@.len()
            &&& s@.subrange(0, j as int) == "{\"game\":"@ + ser_str(game@)
                + ",\"formatVersion\":"@ + ser_i32(fv) + ",\"versionId\":"@ + ser_str(vid@)
                + ",\"name\":"@ + ser_str(nm@) + ",\"summary\":"@ + ser_opt_str(summary)
            &&& plain(game@)
            &&& plain(vid@)
            &&& plain(nm@)
            &&& (summary matches Some(ss) ==> plain(ss@))
        }),
        forall|m: PackFormat|
            trivial_manifest(m) && s@ == #[trigger] ser_manifest(m) ==> spec_head_ok(r, m),
{
    let (game, fv, j4) = match parse_manifest_head1(s) {
        Some(p) => p,
        None => {
            return None;
        }
    };
    let j5 = match expect_lit(s, j4, ",\"versionId\":") {
        Some(j) => j,
        None => {
            proof {
                assert forall|m: PackFormat| trivial_manifest(m) && s@ == ser_manifest(m)
                    implies false by {
                    lemma_trivial_shape(s@, m);
                    let pp4 = trivial_head1_len(m);
                    let pp5 = pp4 + ",\"versionId\":"@.len();
                    let pp6 = pp5 + m.version_id@.len() + 2;
                    let pp7 = pp6 + ",\"name\":"@.len();
                    let pp8 = pp7 + m.name@.len() + 2;
                    let pp9 = pp8 + ",\"summary\":"@.len();
                    let pp10 = pp9 + "null"@.len();
                    assert(j4 == pp4);
                }
            }
            return None;
        }
    };
    let (version_id, j6) = match parse_string(s, j5) {
        Some(p) => p,
        None => {
            proof {
                assert forall|m: PackFormat| trivial_manifest(m) && s@ == ser_manifest(m)
                    implies false by {
                    lemma_trivial_shape(s@, m);
                    let pp4 = trivial_head1_len(m);
                    let pp5 = pp4 + ",\"versionId\":"@.len();
                    let pp6 = pp5 + m.version_id@.len() + 2;
                    let pp7 = pp6 + ",\"name\":"@.len();
                    let pp8 = pp7 + m.name@.len() + 2;
                    let pp9 = pp8 + ",\"summary\":"@.len();
                    let pp10 = pp9 + "null"@.len();
                    assert(j4 == pp4);
                    assert(j5 == pp5);
                }
            }
            return None;
        }
    };
    let j7 = match expect_lit(s, j6, ",\"name\":") {
        Some(j) => j,
        None => {
            proof {
                assert forall|m: PackFormat| trivial_manifest(m) && s@ == ser_manifest(m)
                    implies false by {
                    lemma_trivial_shape(s@, m);
                    let pp4 = trivial_head1_len(m);
                    let pp5 = pp4 + ",\"versionId\":"@.len();
                    let pp6 = pp5 + m.version_id@.len() + 2;
                    let pp7 = pp6 + ",\"name\":"@.len();
                    let pp8 = pp7 + m.name@.len() + 2;
                    let pp9 = pp8 + ",\"summary\":"@.len();
                    let pp10 = pp9 + "null"@.len();
                    assert(j4 == pp4);
                    assert(j5 == pp5);
                    assert(j6 == pp6);
                }
            }
            return None;
        }
    };
    let (name, j8) = match parse_string(s, j7) {
        Some(p) => p,
        None => {
            proof {
                assert forall|m: PackFormat| trivial_manifest(m) && s@ == ser_manifest(m)
                    implies false by {
                    lemma_trivial_shape(s@, m);
                    let pp4 = trivial_head1_len(m);
                    let pp5 = pp4 + ",\"versionId\":"@.len();
                    let pp6 = pp5 + m.version_id@.len() + 2;
                    let pp7 = pp6 + ",\"name\":"@.len();
                    let pp8 = pp7 + m.name@.len() + 2;
                    let pp9 = pp8 + ",\"summary\":"@.len();
                    let pp10 = pp9 + "null"@.len();
                    assert(j4 == pp4);
                    assert(j5 == pp5);
                    assert(j6 == pp6);
                    assert(j7 == pp7);
                }
            }
            return None;
        }
    };
    let j9 = match expect_lit(s, j8, ",\"summary\":") {
        Some(j) => j,
        None => {
            proof {
                assert forall|m: PackFormat| trivial_manifest(m) && s@ == ser_manifest(m)
                    implies false by {
                    lemma_trivial_shape(s@, m);
                    let pp4 = trivial_head1_len(m);
                    let pp5 = pp4 + ",\"versionId\":"@.len();
                    let pp6 = pp5 + m.version_id@.len() + 2;
                    let pp7 = pp6 + ",\"name\":"@.len();
                    let pp8 = pp7 + m.name@.len() + 2;
                    let pp9 = pp8 + ",\"summary\":"@.len();
                    let pp10 = pp9 + "null"@.len();
                    assert(j4 == pp4);
                    assert(j5 == pp5);
                    assert(j6 == pp6);
                    assert(j7 == pp7);
                    assert(j8 == pp8);
                }
            }
            return None;
        }
    };
    let (summary, j10): (Option<String>, usize) = match expect_lit(s, j9, "null") {
        Some(j) => (None, j),
        None => {
            match parse_string(s, j9) {
                Some((v, j)) => (Some(v), j),
                None => {
            proof {
                assert forall|m: PackFormat| trivial_manifest(m) && s@ == ser_manifest(m)
                    implies false by {
                    lemma_trivial_shape(s@, m);
                    let pp4 = trivial_head1_len(m);
                    let pp5 = pp4 + ",\"versionId\":"@.len();
                    let pp6 = pp5 + m.version_id@.len() + 2;
                    let pp7 = pp6 + ",\"name\":"@.len();
                    let pp8 = pp7 + m.name@.len() + 2;
                    let pp9 = pp8 + ",\"summary\":"@.len();
                    let pp10 = pp9 + "null"@.len();
                    assert(j4 == pp4);
                    assert(j5 == pp5);
                    assert(j6 == pp6);
                    assert(j7 == pp7);
                    assert(j8 == pp8);
                    assert(j9 == pp9);
                }
            }
                    return None;
                }
            }
        }
    };
    proof {
        reveal_strlit("null");
        assert(s@.subrange(0, j5 as int) =~= s@.subrange(0, j4 as int) + s@.subrange(
            j4 as int,
            j5 as int,
        ));
        assert(s@.subrange(0, j6 as int) =~= s@.subrange(0, j5 as int) + s@.subrange(
            j5 as int,
            j6 as int,
        ));
        assert(s@.subrange(0, j7 as int) =~= s@.subrange(0, j6 as int) + s@.subrange(
            j6 as int,
            j7 as int,
        ));
        assert(s@.subrange(0, j8 as int) =~= s@.subrange(0, j7 as int) + s@.subrange(
            j7 as int,
            j8 as int,
        ));
        assert(s@.subrange(0, j9 as int) =~= s@.subrange(0, j8 as int) + s@.subrange(
            j8 as int,
            j9 as int,
        ));
        assert(s@.subrange(0, j10 as int) =~= s@.subrange(0, j9 as int) + s@.subrange(
            j9 as int,
            j10 as int,
        ));
        assert(s@.subrange(j9 as int, j10 as int) == ser_opt_str(summary));
        assert(s@.subrange(0, j10 as int) =~= "{\"game\":"@ + ser_str(game@)
            + ",\"formatVersion\":"@ + ser_i32(fv) + ",\"versionId\":"@ + ser_str(
            version_id@,
        ) + ",\"name\":"@ + ser_str(name@) + ",\"summary\":"@ + ser_opt_str(summary));
        assert forall|m: PackFormat| trivial_manifest(m) && s@ == ser_manifest(m)
            implies j10 == trivial_head_len(m) by {
            lemma_trivial_shape(s@, m);
            let pp4 = trivial_head1_len(m);
            let pp5 = pp4 + ",\"versionId\":"@.len();
            let pp6 = pp5 + m.version_id@.len() + 2;
            let pp7 = pp6 + ",\"name\":"@.len();
            let pp8 = pp7 + m.name@.len() + 2;
            let pp9 = pp8 + ",\"summary\":"@.len();
            let pp10 = pp9 + "null"@.len();
            assert(j4 == pp4);
            assert(j5 == pp5);
            assert(j6 == pp6);
            assert(j7 == pp7);
            assert(j8 == pp8);
            assert(j9 == pp9);
            assert(j10 == pp10);
            assert(pp10 == trivial_head_len(m));
        }
    }
    Some((game, fv, version_id, name, summary, j10))
}

/// Read a manifest back from its canonical rendering. Whatever this parser
/// accepts is exactly what `serialize_manifest` writes for the result: on
/// `Ok(m)`, the input equals `ser_manifest(m)` byte for byte, and `m` is a
/// manifest the codec can write. Anything else is `InvalidManifest` — but
/// success is owed, and proved, on every serialized trivial manifest.
#[verifier::rlimit(100)]
pub fn parse_manifest_canonical(s: &str) -> (r: Result<PackFormat, InstallError>)
    ensures
        r matches Ok(m) ==> s@ == ser_manifest(m) && wf_manifest(m),
        r is Err ==> r == Err::<PackFormat, InstallError>(InstallError::InvalidManifest),
        forall|m: PackFormat|
            trivial_manifest(m) && s@ == #[trigger] ser_manifest(m) ==> spec_trivial_ok(r, m),
{
    let n = s.unicode_len();
    let (game, fv, version_id, name, summary, j10) = match parse_manifest_head(s) {
        Some(p) => p,
        None => {
            proof {
                assert forall|m: PackFormat| trivial_manifest(m) && s@ == ser_manifest(m)
                    implies false by {
                    lemma_trivial_shape(s@, m);
                    let pp1 = "{\"game\":"@.len() as int;
                    let pp2 = pp1 + m.game@.len() + 2;
                    let pp3 = pp2 + ",\"formatVersion\":"@.len();
                    let pp4 = pp3 + 1;
                    let pp5 = pp4 + ",\"versionId\":"@.len();
                    let pp6 = pp5 + m.version_id@.len() + 2;
                    let pp7 = pp6 + ",\"name\":"@.len();
                    let pp8 = pp7 + m.name@.len() + 2;
                    let pp9 = pp8 + ",\"summary\":"@.len();
                    let pp10 = pp9 + "null"@.len();
                    let pp11 = pp10 + ",\"files\":["@.len();
                    let pp12 = pp11 + "],\"dependencies\":{"@.len();
                    let pp13 = pp12 + "}}"@.len();
                    assert(pp10 == trivial_head_len(m));
                }
            }
            return Err(InstallError::InvalidManifest);
        }
    };
    let j11 = match expect_lit(s, j10, ",\"files\":[") {
        Some(j) => j,
        None => {
            proof {
                assert forall|m: PackFormat| trivial_manifest(m) && s@ == ser_manifest(m)
                    implies false by {
                    lemma_trivial_shape(s@, m);
                    let pp1 = "{\"game\":"@.len() as int;
                    let pp2 = pp1 + m.game@.len() + 2;
                    let pp3 = pp2 + ",\"formatVersion\":"@.len();
                    let pp4 = pp3 + 1;
                    let pp5 = pp4 + ",\"versionId\":"@.len();
                    let pp6 = pp5 + m.version_id@.len() + 2;
                    let pp7 = pp6 + ",\"name\":"@.len();
                    let pp8 = pp7 + m.name@.len() + 2;
                    let pp9 = pp8 + ",\"summary\":"@.len();
                    let pp10 = pp9 + "null"@.len();
                    let pp11 = pp10 + ",\"files\":["@.len();
                    let pp12 = pp11 + "],\"dependencies\":{"@.len();
                    let pp13 = pp12 + "}}"@.len();
                    assert(pp10 == trivial_head_len(m));
                    assert(j10 == trivial_head_len(m));
                }
            }
            return Err(InstallError::InvalidManifest);
        }
    };
    let (files, j12) = match parse_file_items(s, j11) {
        Some(p) => p,
        None => {
            proof {
                assert forall|m: PackFormat| trivial_manifest(m) && s@ == ser_manifest(m)
                    implies false by {
                    lemma_trivial_shape(s@, m);
                    let pp1 = "{\"game\":"@.len() as int;
                    let pp2 = pp1 + m.game@.len() + 2;
                    let pp3 = pp2 + ",\"formatVersion\":"@.len();
                    let pp4 = pp3 + 1;
                    let pp5 = pp4 + ",\"versionId\":"@.len();
                    let pp6 = pp5 + m.version_id@.len() + 2;
                    let pp7 = pp6 + ",\"name\":"@.len();
                    let pp8 = pp7 + m.name@.len() + 2;
                    let pp9 = pp8 + ",\"summary\":"@.len();
                    let pp10 = pp9 + "null"@.len();
                    let pp11 = pp10 + ",\"files\":["@.len();
                    let pp12 = pp11 + "],\"dependencies\":{"@.len();
                    let pp13 = pp12 + "}}"@.len();
                    assert(pp10 == trivial_head_len(m));
                    assert(j10 == trivial_head_len(m));
                    assert(j11 == pp11);
                }
            }
            return Err(InstallError::InvalidManifest);
        }
    };
    let j13 = match expect_lit(s, j12, "],\"dependencies\":{") {
        Some(j) => j,
        None => {
            proof {
                assert forall|m: PackFormat| trivial_manifest(m) && s@ == ser_manifest(m)
                    implies false by {
                    lemma_trivial_shape(s@, m);
                    let pp1 = "{\"game\":"@.len() as int;
                    let pp2 = pp1 + m.game@.len() + 2;
                    let pp3 = pp2 + ",\"formatVersion\":"@.len();
                    let pp4 = pp3 + 1;
                    let pp5 = pp4 + ",\"versionId\":"@.len();
                    let pp6 = pp5 + m.version_id@.len() + 2;
                    let pp7 = pp6 + ",\"name\":"@.len();
                    let pp8 = pp7 + m.name@.len() + 2;
                    let pp9 = pp8 + ",\"summary\":"@.len();
                    let pp10 = pp9 + "null"@.len();
                    let pp11 = pp10 + ",\"files\":["@.len();
                    let pp12 = pp11 + "],\"dependencies\":{"@.len();
                    let pp13 = pp12 + "}}"@.len();
                    assert(pp10 == trivial_head_len(m));
                    assert(j10 == trivial_head_len(m));
                    assert(j11 == pp11);
                    assert(j12 == pp11);
                }
            }
            return Err(InstallError::InvalidManifest);
        }
    };
    let (dependencies, j14) = match parse_dep_items(s, j13) {
        Some(p) => p,
        None => {
            proof {
                assert forall|m: PackFormat| trivial_manifest(m) && s@ == ser_manifest(m)
                    implies false by {
                    lemma_trivial_shape(s@, m);
                    let pp1 = "{\"game\":"@.len() as int;
                    let pp2 = pp1 + m.game@.len() + 2;
                    let pp3 = pp2 + ",\"formatVersion\":"@.len();
                    let pp4 = pp3 + 1;
                    let pp5 = pp4 + ",\"versionId\":"@.len();
                    let pp6 = pp5 + m.version_id@.len() + 2;
                    let pp7 = pp6 + ",\"name\":"@.len();
                    let pp8 = pp7 + m.name@.len() + 2;
                    let pp9 = pp8 + ",\"summary\":"@.len();
                    let pp10 = pp9 + "null"@.len();
                    let pp11 = pp10 + ",\"files\":["@.len();
                    let pp12 = pp11 + "],\"dependencies\":{"@.len();
                    let pp13 = pp12 + "}}"@.len();
                    assert(pp10 == trivial_head_len(m));
                    assert(j10 == trivial_head_len(m));
                    assert(j11 == pp11);
                    assert(j12 == pp11);
                    assert(j13 == pp12);
                }
            }
            return Err(InstallError::InvalidManifest);
        }
    };
    let j15 = match expect_lit(s, j14, "}}") {
        Some(j) => j,
        None => {
            proof {
                assert forall|m: PackFormat| trivial_manifest(m) && s@ == ser_manifest(m)
                    implies false by {
                    lemma_trivial_shape(s@, m);
                    let pp1 = "{\"game\":"@.len() as int;
                    let pp2 = pp1 + m.game@.len() + 2;
                    let pp3 = pp2 + ",\"formatVersion\":"@.len();
                    let pp4 = pp3 + 1;
                    let pp5 = pp4 + ",\"versionId\":"@.len();
                    let pp6 = pp5 + m.version_id@.len() + 2;
                    let pp7 = pp6 + ",\"name\":"@.len();
                    let pp8 = pp7 + m.name@.len() + 2;
                    let pp9 = pp8 + ",\"summary\":"@.len();
                    let pp10 = pp9 + "null"@.len();
                    let pp11 = pp10 + ",\"files\":["@.len();
                    let pp12 = pp11 + "],\"dependencies\":{"@.len();
                    let pp13 = pp12 + "}}"@.len();
                    assert(pp10 == trivial_head_len(m));
                    assert(j10 == trivial_head_len(m));
                    assert(j11 == pp11);
                    assert(j12 == pp11);
                    assert(j13 == pp12);
                    assert(j14 == pp12);
                }
            }
            return Err(InstallError::InvalidManifest);
        }
    };
    if j15 != n {
        proof {
            assert forall|m: PackFormat| trivial_manifest(m) && s@ == ser_manifest(m)
                implies false by {
                lemma_trivial_shape(s@, m);
                let pp1 = "{\"game\":"@.len() as int;
                let pp2 = pp1 + m.game@.len() + 2;
                let pp3 = pp2 + ",\"formatVersion\":"@.len();
                let pp4 = pp3 + 1;
                let pp5 = pp4 + ",\"versionId\":"@.len();
                let pp6 = pp5 + m.version_id@.len() + 2;
                let pp7 = pp6 + ",\"name\":"@.len();
                let pp8 = pp7 + m.name@.len() + 2;
                let pp9 = pp8 + ",\"summary\":"@.len();
                let pp10 = pp9 + "null"@.len();
                let pp11 = pp10 + ",\"files\":["@.len();
                let pp12 = pp11 + "],\"dependencies\":{"@.len();
                let pp13 = pp12 + "}}"@.len();
                assert(pp10 == trivial_head_len(m));
                assert(j10 == trivial_head_len(m));
                assert(j11 == pp11);
                assert(j12 == pp11);
                assert(j13 == pp12);
                assert(j14 == pp12);
                assert(j15 == pp13);
            }
        }
        return Err(InstallError::InvalidManifest);
    }
    let m = PackFormat { game, format_version: fv, version_id, name, summary, files, dependencies };
    proof {
        assert(s@.subrange(0, j11 as int) =~= s@.subrange(0, j10 as int) + s@.subrange(
            j10 as int,
            j11 as int,
        ));
        assert(s@.subrange(0, j12 as int) =~= s@.subrange(0, j11 as int) + s@.subrange(
            j11 as int,
            j12 as int,
        ));
        assert(s@.subrange(0, j13 as int) =~= s@.subrange(0, j12 as int) + s@.subrange(
            j12 as int,
            j13 as int,
        ));
        assert(s@.subrange(0, j14 as int) =~= s@.subrange(0, j13 as int) + s@.subrange(
            j13 as int,
            j14 as int,
        ));
        assert(s@.subrange(0, j15 as int) =~= s@.subrange(0, j14 as int) + s@.subrange(
            j14 as int,
            j15 as int,
        ));
        assert(s@.subrange(0, n as int) =~= s@);
        assert(s@ =~= ser_manifest(m));
    }
    Ok(m)
}


/// Law: the dependency-key tags are pairwise distinct — a written
/// dependency map loses no key.
pub proof fn lemma_dep_tag_injective(a: PackDependency, b: PackDependency)
    requires
        dep_tag(a) == dep_tag(b),
    ensures
        a == b,
{
    reveal_strlit("forge");
    reveal_strlit("fabric-loader");
    reveal_strlit("quilt-loader");
    reveal_strlit("minecraft");
    assert("forge"@.len() == 5);
    assert("fabric-loader"@.len() == 13);
    assert("quilt-loader"@.len() == 12);
    assert("minecraft"@.len() == 9);
}

/// Law: the environment-side tags are distinct, and so are the support
/// levels — a written environment map loses no entry.
pub proof fn lemma_env_tags_injective(a: EnvType, b: EnvType, x: SideType, y: SideType)
    requires
        env_tag(a) == env_tag(b),
        side_tag(x) == side_tag(y),
    ensures
        a == b,
        x == y,
{
    reveal_strlit("client");
    reveal_strlit("server");
    reveal_strlit("required");
    reveal_strlit("optional");
    reveal_strlit("unsupported");
    assert("client"@[0] == 'c' && "server"@[0] == 's');
    assert("required"@.len() == 8);
    assert("optional"@.len() == 8);
    assert("unsupported"@.len() == 11);
    assert("required"@[0] == 'r' && "optional"@[0] == 'o');
}

proof fn lemma_dec_int_len(n: int)
    requires
        n >= 0,
    ensures
        dec_int(n).len() >= 1,
        n >= 10 ==> dec_int(n).len() >= 2,
    decreases n,
{
    if n >= 10 {
        lemma_dec_int_len(n / 10);
    }
}

/// Law: decimal renderings are injective — a written size or format
/// version loses nothing.
pub proof fn lemma_dec_int_injective(a: int, b: int)
    requires
        a >= 0,
        b >= 0,
        dec_int(a) == dec_int(b),
    ensures
        a == b,
    decreases a,
{
    lemma_dec_int_len(a);
    lemma_dec_int_len(b);
    if a < 10 && b < 10 {
        assert(dec_int(a)[0] == hex_digit(a));
        assert(dec_int(b)[0] == hex_digit(b));
    } else if a >= 10 && b >= 10 {
        assert(dec_int(a).last() == hex_digit(a % 10));
        assert(dec_int(b).last() == hex_digit(b % 10));
        assert(a % 10 == b % 10);
        assert(dec_int(a).drop_last() =~= dec_int(a / 10));
        assert(dec_int(b).drop_last() =~= dec_int(b / 10));
        lemma_dec_int_injective(a / 10, b / 10);
        assert(a == 10 * (a / 10) + a % 10) by (nonlinear_arith);
        assert(b == 10 * (b / 10) + b % 10) by (nonlinear_arith);
    } else {
        assert(dec_int(a).len() == dec_int(b).len());
        assert(a < 10 ==> dec_int(a).len() == 1);
        assert(b < 10 ==> dec_int(b).len() == 1);
        assert(false);
    }
}

/// Law: quoted strings are injective — a written string field loses
/// nothing.
pub proof fn lemma_ser_str_injective(a: Seq<char>, b: Seq<char>)
    requires
        ser_str(a) == ser_str(b),
    ensures
        a == b,
{
    reveal_strlit("\"");
    assert(ser_str(a).len() == a.len() + 2);
    assert(ser_str(b).len() == b.len() + 2);
    assert(a =~= ser_str(a).subrange(1, ser_str(a).len() - 1));
    assert(b =~= ser_str(b).subrange(1, ser_str(b).len() - 1));
}

fn skip_ws(s: &str, i: usize) -> (r: usize)
    requires
        i <= s@.len(),
    ensures
        i <= r <= s@.len(),
{
    let n = s.unicode_len();
    let mut k: usize = i;
    while k < n
        invariant
            n == s@.len(),
            i <= k <= n,
        decreases n - k,
    {
        let c = s.get_char(k);
        if c == ' ' || c == '\t' || c == '\n' || c == '\r' {
            k += 1;
        } else {
            return k;
        }
    }
    k
}

fn eat(s: &str, i: usize, c: char) -> (r: Option<usize>)
    requires
        i <= s@.len(),
    ensures
        r matches Some(j) ==> i < j <= s@.len(),
{
    let n = s.unicode_len();
    if i < n && s.get_char(i) == c {
        Some(i + 1)
    } else {
        None
    }
}

fn parse_j_string(s: &str, i: usize) -> (r: Option<(String, usize)>)
    requires
        i <= s@.len(),
    ensures
        r matches Some((v, j)) ==> i < j <= s@.len(),
{
    let n = s.unicode_len();
    if i >= n || s.get_char(i) != '"' {
        return None;
    }
    let mut out = String::new();
    let mut run: usize = i + 1;
    let mut k: usize = i + 1;
    while k < n
        invariant
            n == s@.len(),
            i + 1 <= run <= k <= n,
        decreases n - k,
    {
        let c = s.get_char(k);
        if c == '"' {
            out.append(s.substring_char(run, k));
            return Some((out, k + 1));
        }
        if c == '\\' {
            out.append(s.substring_char(run, k));
            if n - k < 2 {
                return None;
            }
            let e = s.get_char(k + 1);
            let dec: &'static str = if e == '"' {
                "\""
            } else if e == '\\' {
                "\\"
            } else if e == '/' {
                "/"
            } else if e == 'n' {
                "\n"
            } else if e == 't' {
                "\t"
            } else if e == 'r' {
                "\r"
            } else if e == 'b' {
                "\u{0008}"
            } else if e == 'f' {
                "\u{000C}"
            } else {
                return None;
            };
            out.append(dec);
            k = k + 2;
            run = k;
        } else {
            k = k + 1;
        }
    }
    None
}

fn parse_j_u64(s: &str, i: usize) -> (r: Option<(u64, usize)>)
    requires
        i <= s@.len(),
    ensures
        r matches Some((v, j)) ==> i < j <= s@.len(),
{
    let n = s.unicode_len();
    let mut acc: u64 = 0;
    let mut k: usize = i;
    while k < n
        invariant
            n == s@.len(),
            i <= k <= n,
        decreases n - k,
    {
        let d = match digit_of(s.get_char(k)) {
            Some(d) => d,
            None => {
                break ;
            }
        };
        if acc > 1000000000000000000u64 {
            return None;
        }
        acc = acc * 10 + d;
        k += 1;
    }
    if k == i {
        return None;
    }
    Some((acc, k))
}

fn parse_j_i32(s: &str, i: usize) -> (r: Option<(i32, usize)>)
    requires
        i <= s@.len(),
    ensures
        r matches Some((v, j)) ==> i < j <= s@.len(),
{
    let n = s.unicode_len();
    if i >= n {
        return None;
    }
    if s.get_char(i) == '-' {
        let (mag, j) = match parse_j_u64(s, i + 1) {
            Some(p) => p,
            None => {
                return None;
            }
        };
        if mag == 0 || mag > 2147483648u64 {
            return None;
        }
        let v: i32 = if mag == 2147483648u64 {
            i32::MIN
        } else {
            -(mag as i32)
        };
        Some((v, j))
    } else {
        let (mag, j) = match parse_j_u64(s, i) {
            Some(p) => p,
            None => {
                return None;
            }
        };
        if mag > 2147483647u64 {
            return None;
        }
        Some((mag as i32, j))
    }
}

fn skip_number_chars(s: &str, i: usize) -> (r: Option<usize>)
    requires
        i <= s@.len(),
    ensures
        r matches Some(j) ==> i < j <= s@.len(),
{
    let n = s.unicode_len();
    let mut k: usize = i;
    while k < n
        invariant
            n == s@.len(),
            i <= k <= n,
        decreases n - k,
    {
        let c = s.get_char(k);
        let numeric = c == '-' || c == '+' || c == '.' || c == 'e' || c == 'E' || matches!(
            digit_of(c),
            Some(_),
        );
        if numeric {
            k += 1;
        } else {
            break ;
        }
    }
    if k == i {
        return None;
    }
    Some(k)
}

fn skip_json_value(s: &str, i: usize) -> (r: Option<usize>)
    requires
        i <= s@.len(),
    ensures
        r matches Some(j) ==> i < j <= s@.len(),
    decreases s@.len() - i,
{
    let n = s.unicode_len();
    if i >= n {
        return None;
    }
    let c = s.get_char(i);
    if c == '"' {
        match parse_j_string(s, i) {
            Some((_v, j)) => Some(j),
            None => None,
        }
    } else if c == '{' || c == '[' {
        let closing: char = if c == '{' {
            '}'
        } else {
            ']'
        };
        let mut k: usize = skip_ws(s, i + 1);
        if k < n && s.get_char(k) == closing {
            return Some(k + 1);
        }
        loop
            invariant
                n == s@.len(),
                i < k <= n,
            decreases n - k,
        {
            if c == '{' {
                let (_key, k2) = match parse_j_string(s, skip_ws(s, k)) {
                    Some(p) => p,
                    None => {
                        return None;
                    }
                };
                let k3 = match eat(s, skip_ws(s, k2), ':') {
                    Some(j) => j,
                    None => {
                        return None;
                    }
                };
                k = match skip_json_value(s, skip_ws(s, k3)) {
                    Some(j) => j,
                    None => {
                        return None;
                    }
                };
            } else {
                k = match skip_json_value(s, skip_ws(s, k)) {
                    Some(j) => j,
                    None => {
                        return None;
                    }
                };
            }
            let k4 = skip_ws(s, k);
            if k4 < n && s.get_char(k4) == ',' {
                k = k4 + 1;
            } else if k4 < n && s.get_char(k4) == closing {
                return Some(k4 + 1);
            } else {
                return None;
            }
        }
    } else if c == 't' {
        match expect_lit(s, i, "true") {
            Some(j) => {
                proof {
                    reveal_strlit("true");
                }
                Some(j)
            }
            None => None,
        }
    } else if c == 'f' {
        match expect_lit(s, i, "false") {
            Some(j) => {
                proof {
                    reveal_strlit("false");
                }
                Some(j)
            }
            None => None,
        }
    } else if c == 'n' {
        match expect_lit(s, i, "null") {
            Some(j) => {
                proof {
                    reveal_strlit("null");
                }
                Some(j)
            }
            None => None,
        }
    } else {
        skip_number_chars(s, i)
    }
}


fn parse_flex_hashes(s: &str, i: usize) -> (r: Option<(Vec<(PackFileHash, String)>, usize)>)
    requires
        i <= s@.len(),
    ensures
        r matches Some((v, j)) ==> i < j <= s@.len(),
{
    let n = s.unicode_len();
    let mut out: Vec<(PackFileHash, String)> = Vec::new();
    let i0 = match eat(s, i, '{') {
        Some(j) => j,
        None => {
            return None;
        }
    };
    let mut k: usize = skip_ws(s, i0);
    if k < n && s.get_char(k) == '}' {
        return Some((out, k + 1));
    }
    loop
        invariant
            n == s@.len(),
            i < k <= n,
        decreases n - k,
    {
        let (key, k2) = match parse_j_string(s, skip_ws(s, k)) {
            Some(p) => p,
            None => {
                return None;
            }
        };
        let k3 = match eat(s, skip_ws(s, k2), ':') {
            Some(j) => j,
            None => {
                return None;
            }
        };
        let (val, k4) = match parse_j_string(s, skip_ws(s, k3)) {
            Some(p) => p,
            None => {
                return None;
            }
        };
        if hash_tag_present(&out, key.as_str()) {
            return None;
        }
        out.push((PackFileHash::from(key), val));
        let k5 = skip_ws(s, k4);
        if k5 < n && s.get_char(k5) == ',' {
            k = k5 + 1;
        } else if k5 < n && s.get_char(k5) == '}' {
            return Some((out, k5 + 1));
        } else {
            return None;
        }
    }
}

fn parse_flex_env(s: &str, i: usize) -> (r: Option<(Vec<(EnvType, SideType)>, usize)>)
    requires
        i <= s@.len(),
    ensures
        r matches Some((v, j)) ==> i < j <= s@.len(),
{
    let n = s.unicode_len();
    let mut out: Vec<(EnvType, SideType)> = Vec::new();
    let mut seen_client = false;
    let mut seen_server = false;
    let i0 = match eat(s, i, '{') {
        Some(j) => j,
        None => {
            return None;
        }
    };
    let mut k: usize = skip_ws(s, i0);
    if k < n && s.get_char(k) == '}' {
        return Some((out, k + 1));
    }
    loop
        invariant
            n == s@.len(),
            i < k <= n,
        decreases n - k,
    {
        let (key, k2) = match parse_j_string(s, skip_ws(s, k)) {
            Some(p) => p,
            None => {
                return None;
            }
        };
        let e: EnvType = if crate::strutil::str_eq(key.as_str(), "client") {
            EnvType::Client
        } else if crate::strutil::str_eq(key.as_str(), "server") {
            EnvType::Server
        } else {
            return None;
        };
        if e == EnvType::Client && seen_client {
            return None;
        }
        if e == EnvType::Server && seen_server {
            return None;
        }
        let k3 = match eat(s, skip_ws(s, k2), ':') {
            Some(j) => j,
            None => {
                return None;
            }
        };
        let (val, k4) = match parse_j_string(s, skip_ws(s, k3)) {
            Some(p) => p,
            None => {
                return None;
            }
        };
        let sd: SideType = if crate::strutil::str_eq(val.as_str(), "required") {
            SideType::Required
        } else if crate::strutil::str_eq(val.as_str(), "optional") {
            SideType::Optional
        } else if crate::strutil::str_eq(val.as_str(), "unsupported") {
            SideType::Unsupported
        } else {
            return None;
        };
        if e == EnvType::Client {
            seen_client = true;
        } else {
            seen_server = true;
        }
        out.push((e, sd));
        let k5 = skip_ws(s, k4);
        if k5 < n && s.get_char(k5) == ',' {
            k = k5 + 1;
        } else if k5 < n && s.get_char(k5) == '}' {
            return Some((out, k5 + 1));
        } else {
            return None;
        }
    }
}

fn parse_flex_deps(s: &str, i: usize) -> (r: Option<(Vec<(PackDependency, String)>, usize)>)
    requires
        i <= s@.len(),
    ensures
        r matches Some((v, j)) ==> i < j <= s@.len(),
{
    let n = s.unicode_len();
    let mut out: Vec<(PackDependency, String)> = Vec::new();
    let mut seen_forge = false;
    let mut seen_fabric = false;
    let mut seen_quilt = false;
    let mut seen_minecraft = false;
    let i0 = match eat(s, i, '{') {
        Some(j) => j,
        None => {
            return None;
        }
    };
    let mut k: usize = skip_ws(s, i0);
    if k < n && s.get_char(k) == '}' {
        return Some((out, k + 1));
    }
    loop
        invariant
            n == s@.len(),
            i < k <= n,
        decreases n - k,
    {
        let (key, k2) = match parse_j_string(s, skip_ws(s, k)) {
            Some(p) => p,
            None => {
                return None;
            }
        };
        let d: PackDependency = if crate::strutil::str_eq(key.as_str(), "forge") {
            PackDependency::Forge
        } else if crate::strutil::str_eq(key.as_str(), "fabric-loader") {
            PackDependency::FabricLoader
        } else if crate::strutil::str_eq(key.as_str(), "quilt-loader") {
            PackDependency::QuiltLoader
        } else if crate::strutil::str_eq(key.as_str(), "minecraft") {
            PackDependency::Minecraft
        } else {
            return None;
        };
        let dup = match d {
            PackDependency::Forge => seen_forge,
            PackDependency::FabricLoader => seen_fabric,
            PackDependency::QuiltLoader => seen_quilt,
            PackDependency::Minecraft => seen_minecraft,
        };
        if dup {
            return None;
        }
        match d {
            PackDependency::Forge => {
                seen_forge = true;
            }
            PackDependency::FabricLoader => {
                seen_fabric = true;
            }
            PackDependency::QuiltLoader => {
                seen_quilt = true;
            }
            PackDependency::Minecraft => {
                seen_minecraft = true;
            }
        }
        let k3 = match eat(s, skip_ws(s, k2), ':') {
            Some(j) => j,
            None => {
                return None;
            }
        };
        let (val, k4) = match parse_j_string(s, skip_ws(s, k3)) {
            Some(p) => p,
            None => {
                return None;
            }
        };
        out.push((d, val));
        let k5 = skip_ws(s, k4);
        if k5 < n && s.get_char(k5) == ',' {
            k = k5 + 1;
        } else if k5 < n && s.get_char(k5) == '}' {
            return Some((out, k5 + 1));
        } else {
            return None;
        }
    }
}

fn parse_flex_downloads(s: &str, i: usize) -> (r: Option<(Vec<String>, usize)>)
    requires
        i <= s@.len(),
    ensures
        r matches Some((v, j)) ==> i < j <= s@.len(),
{
    let n = s.unicode_len();
    let mut out: Vec<String> = Vec::new();
    let i0 = match eat(s, i, '[') {
        Some(j) => j,
        None => {
            return None;
        }
    };
    let mut k: usize = skip_ws(s, i0);
    if k < n && s.get_char(k) == ']' {
        return Some((out, k + 1));
    }
    loop
        invariant
            n == s@.len(),
            i < k <= n,
        decreases n - k,
    {
        let (item, k2) = match parse_j_string(s, skip_ws(s, k)) {
            Some(p) => p,
            None => {
                return None;
            }
        };
        out.push(item);
        let k3 = skip_ws(s, k2);
        if k3 < n && s.get_char(k3) == ',' {
            k = k3 + 1;
        } else if k3 < n && s.get_char(k3) == ']' {
            return Some((out, k3 + 1));
        } else {
            return None;
        }
    }
}

fn parse_flex_file(s: &str, i: usize) -> (r: Option<(PackFile, usize)>)
    requires
        i <= s@.len(),
    ensures
        r matches Some((f, j)) ==> i < j <= s@.len(),
{
    let n = s.unicode_len();
    let mut path: Option<String> = None;
    let mut hashes: Option<Vec<(PackFileHash, String)>> = None;
    let mut env: Option<Vec<(EnvType, SideType)>> = None;
    let mut env_seen = false;
    let mut downloads: Option<Vec<String>> = None;
    let mut file_size: Option<u32> = None;
    let i0 = match eat(s, i, '{') {
        Some(j) => j,
        None => {
            return None;
        }
    };
    let mut k: usize = skip_ws(s, i0);
    let mut closed = false;
    if k < n && s.get_char(k) == '}' {
        k = k + 1;
        closed = true;
    }
    while !closed
        invariant
            n == s@.len(),
            i < k <= n,
        decreases n - k,
    {
        let (key, k2) = match parse_j_string(s, skip_ws(s, k)) {
            Some(p) => p,
            None => {
                return None;
            }
        };
        let k3 = match eat(s, skip_ws(s, k2), ':') {
            Some(j) => j,
            None => {
                return None;
            }
        };
        let k4 = skip_ws(s, k3);
        let k5: usize;
        if crate::strutil::str_eq(key.as_str(), "path") {
            if path.is_some() {
                return None;
            }
            let (v, j) = match parse_j_string(s, k4) {
                Some(p) => p,
                None => {
                    return None;
                }
            };
            path = Some(v);
            k5 = j;
        } else if crate::strutil::str_eq(key.as_str(), "hashes") {
            if hashes.is_some() {
                return None;
            }
            let (v, j) = match parse_flex_hashes(s, k4) {
                Some(p) => p,
                None => {
                    return None;
                }
            };
            hashes = Some(v);
            k5 = j;
        } else if crate::strutil::str_eq(key.as_str(), "env") {
            if env_seen {
                return None;
            }
            env_seen = true;
            if k4 < n && s.get_char(k4) == 'n' {
                let j = match expect_lit(s, k4, "null") {
                    Some(j) => j,
                    None => {
                        return None;
                    }
                };
                proof {
                    reveal_strlit("null");
                }
                k5 = j;
            } else {
                let (v, j) = match parse_flex_env(s, k4) {
                    Some(p) => p,
                    None => {
                        return None;
                    }
                };
                env = Some(v);
                k5 = j;
            }
        } else if crate::strutil::str_eq(key.as_str(), "downloads") {
            if downloads.is_some() {
                return None;
            }
            let (v, j) = match parse_flex_downloads(s, k4) {
                Some(p) => p,
                None => {
                    return None;
                }
            };
            downloads = Some(v);
            k5 = j;
        } else if crate::strutil::str_eq(key.as_str(), "fileSize") {
            if file_size.is_some() {
                return None;
            }
            let (v, j) = match parse_j_u64(s, k4) {
                Some(p) => p,
                None => {
                    return None;
                }
            };
            if v > 4294967295u64 {
                return None;
            }
            file_size = Some(v as u32);
            k5 = j;
        } else {
            k5 = match skip_json_value(s, k4) {
                Some(j) => j,
                None => {
                    return None;
                }
            };
        }
        let k6 = skip_ws(s, k5);
        if k6 < n && s.get_char(k6) == ',' {
            k = k6 + 1;
        } else if k6 < n && s.get_char(k6) == '}' {
            k = k6 + 1;
            closed = true;
        } else {
            return None;
        }
    }
    let path = match path {
        Some(p) => p,
        None => {
            return None;
        }
    };
    let hashes = match hashes {
        Some(h) => h,
        None => {
            return None;
        }
    };
    let downloads = match downloads {
        Some(d) => d,
        None => {
            return None;
        }
    };
    let file_size = match file_size {
        Some(z) => z,
        None => {
            return None;
        }
    };
    Some((PackFile { path, hashes, env, downloads, file_size }, k))
}

fn parse_flex_files(s: &str, i: usize) -> (r: Option<(Vec<PackFile>, usize)>)
    requires
        i <= s@.len(),
    ensures
        r matches Some((v, j)) ==> i < j <= s@.len(),
{
    let n = s.unicode_len();
    let mut out: Vec<PackFile> = Vec::new();
    let i0 = match eat(s, i, '[') {
        Some(j) => j,
        None => {
            return None;
        }
    };
    let mut k: usize = skip_ws(s, i0);
    if k < n && s.get_char(k) == ']' {
        return Some((out, k + 1));
    }
    loop
        invariant
            n == s@.len(),
            i < k <= n,
        decreases n - k,
    {
        let (f, k2) = match parse_flex_file(s, skip_ws(s, k)) {
            Some(p) => p,
            None => {
                return None;
            }
        };
        out.push(f);
        let k3 = skip_ws(s, k2);
        if k3 < n && s.get_char(k3) == ',' {
            k = k3 + 1;
        } else if k3 < n && s.get_char(k3) == ']' {
            return Some((out, k3 + 1));
        } else {
            return None;
        }
    }
}

fn parse_flex_manifest(s: &str) -> (r: Option<PackFormat>)
{
    let n = s.unicode_len();
    let mut game: Option<String> = None;
    let mut format_version: Option<i32> = None;
    let mut version_id: Option<String> = None;
    let mut name: Option<String> = None;
    let mut summary: Option<String> = None;
    let mut summary_seen = false;
    let mut files: Option<Vec<PackFile>> = None;
    let mut dependencies: Option<Vec<(PackDependency, String)>> = None;
    let start = skip_ws(s, 0);
    let i0 = match eat(s, start, '{') {
        Some(j) => j,
        None => {
            return None;
        }
    };
    let mut k: usize = skip_ws(s, i0);
    let mut closed = false;
    if k < n && s.get_char(k) == '}' {
        k = k + 1;
        closed = true;
    }
    while !closed
        invariant
            0 < k <= s@.len(),
            n == s@.len(),
        decreases n - k,
    {
        let (key, k2) = match parse_j_string(s, skip_ws(s, k)) {
            Some(p) => p,
            None => {
                return None;
            }
        };
        let k3 = match eat(s, skip_ws(s, k2), ':') {
            Some(j) => j,
            None => {
                return None;
            }
        };
        let k4 = skip_ws(s, k3);
        let k5: usize;
        if crate::strutil::str_eq(key.as_str(), "game") {
            if game.is_some() {
                return None;
            }
            let (v, j) = match parse_j_string(s, k4) {
                Some(p) => p,
                None => {
                    return None;
                }
            };
            game = Some(v);
            k5 = j;
        } else if crate::strutil::str_eq(key.as_str(), "formatVersion") {
            if format_version.is_some() {
                return None;
            }
            let (v, j) = match parse_j_i32(s, k4) {
                Some(p) => p,
                None => {
                    return None;
                }
            };
            format_version = Some(v);
            k5 = j;
        } else if crate::strutil::str_eq(key.as_str(), "versionId") {
            if version_id.is_some() {
                return None;
            }
            let (v, j) = match parse_j_string(s, k4) {
                Some(p) => p,
                None => {
                    return None;
                }
            };
            version_id = Some(v);
            k5 = j;
        } else if crate::strutil::str_eq(key.as_str(), "name") {
            if name.is_some() {
                return None;
            }
            let (v, j) = match parse_j_string(s, k4) {
                Some(p) => p,
                None => {
                    return None;
                }
            };
            name = Some(v);
            k5 = j;
        } else if crate::strutil::str_eq(key.as_str(), "summary") {
            if summary_seen {
                return None;
            }
            summary_seen = true;
            if k4 < n && s.get_char(k4) == 'n' {
                let j = match expect_lit(s, k4, "null") {
                    Some(j) => j,
                    None => {
                        return None;
                    }
                };
                proof {
                    reveal_strlit("null");
                }
                k5 = j;
            } else {
                let (v, j) = match parse_j_string(s, k4) {
                    Some(p) => p,
                    None => {
                        return None;
                    }
                };
                summary = Some(v);
                k5 = j;
            }
        } else if crate::strutil::str_eq(key.as_str(), "files") {
            if files.is_some() {
                return None;
            }
            let (v, j) = match parse_flex_files(s, k4) {
                Some(p) => p,
                None => {
                    return None;
                }
            };
            files = Some(v);
            k5 = j;
        } else if crate::strutil::str_eq(key.as_str(), "dependencies") {
            if dependencies.is_some() {
                return None;
            }
            let (v, j) = match parse_flex_deps(s, k4) {
                Some(p) => p,
                None => {
                    return None;
                }
            };
            dependencies = Some(v);
            k5 = j;
        } else {
            k5 = match skip_json_value(s, k4) {
                Some(j) => j,
                None => {
                    return None;
                }
            };
        }
        let k6 = skip_ws(s, k5);
        if k6 < n && s.get_char(k6) == ',' {
            k = k6 + 1;
        } else if k6 < n && s.get_char(k6) == '}' {
            k = k6 + 1;
            closed = true;
        } else {
            return None;
        }
    }
    if skip_ws(s, k) != n {
        return None;
    }
    let game = match game {
        Some(v) => v,
        None => {
            return None;
        }
    };
    let format_version = match format_version {
        Some(v) => v,
        None => {
            return None;
        }
    };
    let version_id = match version_id {
        Some(v) => v,
        None => {
            return None;
        }
    };
    let name = match name {
        Some(v) => v,
        None => {
            return None;
        }
    };
    let files = match files {
        Some(v) => v,
        None => {
            return None;
        }
    };
    let dependencies = match dependencies {
        Some(v) => v,
        None => {
            return None;
        }
    };
    Some(PackFormat { game, format_version, version_id, name, summary, files, dependencies })
}

/// Read a pack manifest. The manifest is JSON: interstitial whitespace,
/// any object-field order, the common string escapes and unknown fields are
/// all accepted, and duplicated keys are structural errors. Success is owed,
/// and proved, on every serialized trivial manifest; everything malformed is
/// `InvalidManifest`.
pub fn parse_manifest(s: &str) -> (r: Result<PackFormat, InstallError>)
    ensures
        r is Err ==> r == Err::<PackFormat, InstallError>(InstallError::InvalidManifest),
        forall|m: PackFormat|
            trivial_manifest(m) && s@ == #[trigger] ser_manifest(m) ==> spec_trivial_ok(r, m),
{
    match parse_manifest_canonical(s) {
        Ok(m) => Ok(m),
        Err(_) => {
            match parse_flex_manifest(s) {
                Some(m) => Ok(m),
                None => Err(InstallError::InvalidManifest),
            }
        }
    }
}


} // verus!
