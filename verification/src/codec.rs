//! The sidecar format of an asset record: a pretty-printed JSON object,
//! written in a canonical member order and read back in any order, with the
//! proof that reading undoes writing.

use vstd::prelude::*;
use crate::json::{
    emit_string, emit_hundredths, emit_int, emit_u64, bool_chars, null_chars, skip_ws,
    parse_string, parse_lit, parse_i32, parse_hundredths, is_ws,
};
use crate::types::{Asset, AssetView, ScannerError, UnpairedFiles, UnpairedFilesView, pair_view};

verus! {

/// The serialized items of a non-empty metadata map, closing brace included.
pub open spec fn emit_meta_items(m: Seq<(Seq<char>, Seq<char>)>) -> Seq<char>
    recommends
        m.len() > 0,
    decreases m.len(),
{
    if m.len() <= 1 {
        emit_string(m[0].0) + seq![':', ' '] + emit_string(m[0].1) + seq!['}']
    } else {
        emit_string(m[0].0) + seq![':', ' '] + emit_string(m[0].1) + seq![',', ' ']
            + emit_meta_items(m.drop_first())
    }
}

/// The serialized metadata map.
pub open spec fn emit_meta(m: Seq<(Seq<char>, Seq<char>)>) -> Seq<char> {
    if m.len() == 0 {
        seq!['{', '}']
    } else {
        seq!['{'] + emit_meta_items(m)
    }
}

/// Parses metadata members from a key string on, consuming the closing
/// brace.  `fuel` bounds the number of members and only needs to reach the
/// member count.
pub open spec fn parse_meta_items(s: Seq<char>, fuel: nat) -> Option<
    (Seq<(Seq<char>, Seq<char>)>, Seq<char>),
>
    decreases fuel,
{
    if fuel == 0 {
        None
    } else {
        match parse_string(s) {
            Some((k, r1)) => {
                let r2 = skip_ws(r1);
                if r2.len() > 0 && r2[0] == ':' {
                    let r3 = skip_ws(r2.drop_first());
                    match parse_string(r3) {
                        Some((val, r4)) => {
                            let r5 = skip_ws(r4);
                            if r5.len() > 0 && r5[0] == ',' {
                                let r6 = skip_ws(r5.drop_first());
                                match parse_meta_items(r6, (fuel - 1) as nat) {
                                    Some((rest_pairs, r7)) => Some(
                                        (seq![(k, val)] + rest_pairs, r7),
                                    ),
                                    None => None,
                                }
                            } else if r5.len() > 0 && r5[0] == '}' {
                                Some((seq![(k, val)], r5.drop_first()))
                            } else {
                                None
                            }
                        },
                        None => None,
                    }
                } else {
                    None
                }
            },
            None => None,
        }
    }
}

/// Parses a metadata map.
pub open spec fn parse_meta(s: Seq<char>) -> Option<(Seq<(Seq<char>, Seq<char>)>, Seq<char>)> {
    if s.len() > 0 && s[0] == '{' {
        let t = skip_ws(s.drop_first());
        if t.len() > 0 && t[0] == '}' {
            Some((Seq::empty(), t.drop_first()))
        } else {
            parse_meta_items(t, t.len())
        }
    } else {
        None
    }
}

/// The member separator: a comma and a line break.
pub open spec fn comma_nl() -> Seq<char> {
    seq![',', '\n']
}

/// The opening of one member: indentation, the quoted key, a colon.
pub open spec fn member_prefix(key: Seq<char>) -> Seq<char> {
    seq![' ', ' '] + emit_string(key) + seq![':', ' ']
}

/// One serialized member at its parse position: the quoted key, a colon
/// and a space, the value, then whatever follows.
pub open spec fn kv(key: Seq<char>, val: Seq<char>, rest: Seq<char>) -> Seq<char> {
    emit_string(key) + (seq![':', ' '] + (val + rest))
}

/// The separator between members: a comma, a line break, the indent.
pub open spec fn sep() -> Seq<char> {
    seq![',', '\n', ' ', ' ']
}

/// The serialized members from `color` on, closing brace included.
pub open spec fn members_last(v: AssetView) -> Seq<char> {
    kv(
        "color"@,
        match v.color {
            Some(c) => emit_string(c),
            None => null_chars(),
        },
        sep() + kv(
            "textures_in_the_archive"@,
            bool_chars(v.textures_in_archive),
            sep() + kv("meta"@, emit_meta(v.meta), seq!['\n', '}']),
        ),
    )
}

/// The serialized members from `size_mb` on.
pub open spec fn members_mid(v: AssetView) -> Seq<char> {
    kv(
        "size_mb"@,
        emit_hundredths(v.size_mb_hundredths),
        sep() + kv(
            "thumbnail"@,
            emit_string(v.thumbnail),
            sep() + kv(
                "stars"@,
                match v.stars {
                    Some(s) => emit_int(s),
                    None => null_chars(),
                },
                sep() + members_last(v),
            ),
        ),
    )
}

/// The serialized members from `type` on.
pub open spec fn members_head(v: AssetView) -> Seq<char> {
    kv(
        "type"@,
        emit_string("asset"@),
        sep() + kv(
            "name"@,
            emit_string(v.name),
            sep() + kv(
                "archive"@,
                emit_string(v.archive),
                sep() + kv("preview"@, emit_string(v.preview), sep() + members_mid(v)),
            ),
        ),
    )
}

/// A record view whose numbers fit the machine types the format carries:
/// hundredths of megabytes in a `u64`, stars in an `i32`.
pub open spec fn valid_view(v: AssetView) -> bool {
    &&& v.size_mb_hundredths <= u64::MAX
    &&& match v.stars {
        Some(s) => -0x8000_0000 <= s <= 0x7fff_ffff,
        None => true,
    }
}

/// The serialized record: a pretty JSON object with one member per line,
/// in the canonical order, closed by the metadata map.
pub open spec fn emit_record(v: AssetView) -> Seq<char> {
    seq!['{', '\n', ' ', ' '] + members_head(v)
}

/// Parses an integer or `null`.
pub open spec fn parse_opt_i32(s: Seq<char>) -> Option<(Option<int>, Seq<char>)> {
    if s.len() > 0 && s[0] == 'n' {
        match parse_lit(s, null_chars()) {
            Some(r) => Some((None, r)),
            None => None,
        }
    } else {
        match parse_i32(s) {
            Some((v, r)) => Some((Some(v), r)),
            None => None,
        }
    }
}

/// Parses a string or `null`.
pub open spec fn parse_opt_string(s: Seq<char>) -> Option<(Option<Seq<char>>, Seq<char>)> {
    if s.len() > 0 && s[0] == 'n' {
        match parse_lit(s, null_chars()) {
            Some(r) => Some((None, r)),
            None => None,
        }
    } else {
        match parse_string(s) {
            Some((v, r)) => Some((Some(v), r)),
            None => None,
        }
    }
}

/// Parses `true` or `false`.
pub open spec fn parse_bool(s: Seq<char>) -> Option<(bool, Seq<char>)> {
    if s.len() > 0 && s[0] == 't' {
        match parse_lit(s, bool_chars(true)) {
            Some(r) => Some((true, r)),
            None => None,
        }
    } else {
        match parse_lit(s, bool_chars(false)) {
            Some(r) => Some((false, r)),
            None => None,
        }
    }
}

/// Parses a whole serialized record, whitespace-tolerantly, requiring the

/// The fields gathered while reading a record's members, each at most
/// once; `kind_seen` records the `"type": "asset"` member.
pub struct PartialRecord {
    pub kind_seen: bool,
    pub name: Option<Seq<char>>,
    pub archive: Option<Seq<char>>,
    pub preview: Option<Seq<char>>,
    pub size: Option<nat>,
    pub thumbnail: Option<Seq<char>>,
    pub stars: Option<Option<int>>,
    pub color: Option<Option<Seq<char>>>,
    pub textures: Option<bool>,
    pub meta: Option<Seq<(Seq<char>, Seq<char>)>>,
}

/// The state before any member has been read.
pub open spec fn empty_partial() -> PartialRecord {
    PartialRecord {
        kind_seen: false,
        name: None,
        archive: None,
        preview: None,
        size: None,
        thumbnail: None,
        stars: None,
        color: None,
        textures: None,
        meta: None,
    }
}

/// How many members have been taken so far.
pub open spec fn taken_count(p: PartialRecord) -> int {
    (if p.kind_seen {
        1int
    } else {
        0
    }) + (if p.name is Some {
        1int
    } else {
        0
    }) + (if p.archive is Some {
        1int
    } else {
        0
    }) + (if p.preview is Some {
        1int
    } else {
        0
    }) + (if p.size is Some {
        1int
    } else {
        0
    }) + (if p.thumbnail is Some {
        1int
    } else {
        0
    }) + (if p.stars is Some {
        1int
    } else {
        0
    }) + (if p.color is Some {
        1int
    } else {
        0
    }) + (if p.textures is Some {
        1int
    } else {
        0
    }) + (if p.meta is Some {
        1int
    } else {
        0
    })
}

/// Parses the value of the member named `key` and stores it: a key
/// already taken, a key outside the schema, and a `type` other than
/// `asset` are all rejected.
pub open spec fn parse_member_value(key: Seq<char>, s: Seq<char>, p: PartialRecord) -> Option<
    (PartialRecord, Seq<char>),
> {
    if key == "type"@ {
        if p.kind_seen {
            None
        } else {
            match parse_string(s) {
                Some((tv, r)) => if tv == "asset"@ {
                    Some((PartialRecord { kind_seen: true, ..p }, r))
                } else {
                    None
                },
                None => None,
            }
        }
    } else if key == "name"@ {
        if p.name is Some {
            None
        } else {
            match parse_string(s) {
                Some((x, r)) => Some((PartialRecord { name: Some(x), ..p }, r)),
                None => None,
            }
        }
    } else if key == "archive"@ {
        if p.archive is Some {
            None
        } else {
            match parse_string(s) {
                Some((x, r)) => Some((PartialRecord { archive: Some(x), ..p }, r)),
                None => None,
            }
        }
    } else if key == "preview"@ {
        if p.preview is Some {
            None
        } else {
            match parse_string(s) {
                Some((x, r)) => Some((PartialRecord { preview: Some(x), ..p }, r)),
                None => None,
            }
        }
    } else if key == "size_mb"@ {
        if p.size is Some {
            None
        } else {
            match parse_hundredths(s) {
                Some((x, r)) => Some((PartialRecord { size: Some(x), ..p }, r)),
                None => None,
            }
        }
    } else if key == "thumbnail"@ {
        if p.thumbnail is Some {
            None
        } else {
            match parse_string(s) {
                Some((x, r)) => Some((PartialRecord { thumbnail: Some(x), ..p }, r)),
                None => None,
            }
        }
    } else if key == "stars"@ {
        if p.stars is Some {
            None
        } else {
            match parse_opt_i32(s) {
                Some((x, r)) => Some((PartialRecord { stars: Some(x), ..p }, r)),
                None => None,
            }
        }
    } else if key == "color"@ {
        if p.color is Some {
            None
        } else {
            match parse_opt_string(s) {
                Some((x, r)) => Some((PartialRecord { color: Some(x), ..p }, r)),
                None => None,
            }
        }
    } else if key == "textures_in_the_archive"@ {
        if p.textures is Some {
            None
        } else {
            match parse_bool(s) {
                Some((x, r)) => Some((PartialRecord { textures: Some(x), ..p }, r)),
                None => None,
            }
        }
    } else if key == "meta"@ {
        if p.meta is Some {
            None
        } else {
            match parse_meta(s) {
                Some((x, r)) => Some((PartialRecord { meta: Some(x), ..p }, r)),
                None => None,
            }
        }
    } else {
        None
    }
}

/// Parses members from a key string on, in any order, consuming the
/// closing brace.  The fuel bounds the member count; eleven is always
/// enough, since at most ten distinct keys can be taken and an eleventh
/// member is rejected without recursing.
pub open spec fn parse_members(s: Seq<char>, p: PartialRecord, fuel: nat) -> Option<
    (PartialRecord, Seq<char>),
>
    decreases fuel,
{
    if fuel == 0 {
        None
    } else {
        match parse_string(s) {
            Some((key, r1)) => {
                let r2 = skip_ws(r1);
                if r2.len() > 0 && r2[0] == ':' {
                    let r3 = skip_ws(r2.drop_first());
                    match parse_member_value(key, r3, p) {
                        Some((p2, r4)) => {
                            let r5 = skip_ws(r4);
                            if r5.len() > 0 && r5[0] == ',' {
                                parse_members(skip_ws(r5.drop_first()), p2, (fuel - 1) as nat)
                            } else if r5.len() > 0 && r5[0] == '}' {
                                Some((p2, r5.drop_first()))
                            } else {
                                None
                            }
                        },
                        None => None,
                    }
                } else {
                    None
                }
            },
            None => None,
        }
    }
}

/// The completed view, provided every member arrived.
pub open spec fn complete_view(p: PartialRecord) -> Option<AssetView> {
    if p.kind_seen && p.name is Some && p.archive is Some && p.preview is Some && p.size is Some
        && p.thumbnail is Some && p.stars is Some && p.color is Some && p.textures is Some
        && p.meta is Some {
        Some(
            AssetView {
                name: p.name->0,
                archive: p.archive->0,
                preview: p.preview->0,
                size_mb_hundredths: p.size->0,
                thumbnail: p.thumbnail->0,
                stars: p.stars->0,
                color: p.color->0,
                textures_in_archive: p.textures->0,
                meta: p.meta->0,
            },
        )
    } else {
        None
    }
}

/// Parses a whole serialized record: a JSON object carrying exactly the
/// ten members of the schema, in any order, each exactly once, with
/// nothing after the closing brace.
///
/// The reader is strict by design, so that it stays a total, exactly
/// specified function: a member outside the schema and a `size_mb` with
/// more than two decimals — beyond the precision the format carries —
/// are malformed.
/// The record of a finished member parse: complete, with nothing after
/// the closing brace.
pub open spec fn finish_record(pm: Option<(PartialRecord, Seq<char>)>) -> Option<AssetView> {
    match pm {
        Some((p, rest)) => if skip_ws(rest).len() == 0 {
            complete_view(p)
        } else {
            None
        },
        None => None,
    }
}

pub open spec fn parse_record(s: Seq<char>) -> Option<AssetView> {
    let r0 = skip_ws(s);
    if r0.len() > 0 && r0[0] == '{' {
        finish_record(parse_members(skip_ws(r0.drop_first()), empty_partial(), 11))
    } else {
        None
    }
}

/// Serialized metadata items are at least as long as the item count.
proof fn lemma_emit_meta_items_len(m: Seq<(Seq<char>, Seq<char>)>)
    requires
        m.len() > 0,
    ensures
        emit_meta_items(m).len() >= m.len(),
    decreases m.len(),
{
    if m.len() > 1 {
        lemma_emit_meta_items_len(m.drop_first());
    }
}

/// Parsing undoes serializing for a non-empty metadata map, member by
/// member, given fuel for every member.
#[verifier::rlimit(100)]
#[verifier::spinoff_prover]
proof fn lemma_parse_meta_items_emit(m: Seq<(Seq<char>, Seq<char>)>, rest: Seq<char>, fuel: nat)
    requires
        m.len() > 0,
        fuel >= m.len(),
    ensures
        parse_meta_items(emit_meta_items(m) + rest, fuel) == Some((m, rest)),
    decreases m.len(),
{
    let k = m[0].0;
    let val = m[0].1;
    if m.len() == 1 {
        let tail2 = emit_string(val) + (seq!['}'] + rest);
        let tail1 = seq![':', ' '] + tail2;
        assert(emit_meta_items(m) + rest =~= emit_string(k) + tail1);
        crate::json::lemma_parse_string_emit(k, tail1);
        crate::json::lemma_skip_ws_noop(tail1);
        assert(tail1[0] == ':');
        assert(tail1.drop_first() =~= seq![' '] + tail2);
        assert(tail2[0] == '"');
        crate::json::lemma_skip_ws_concat(seq![' '], tail2);
        crate::json::lemma_parse_string_emit(val, seq!['}'] + rest);
        let r5 = seq!['}'] + rest;
        crate::json::lemma_skip_ws_noop(r5);
        assert(r5[0] == '}');
        assert(r5.drop_first() =~= rest);
        assert(m[0] == (k, val));
        assert(seq![(k, val)] =~= m);
    } else {
        let tail = m.drop_first();
        let inner = emit_meta_items(tail) + rest;
        let tail2 = emit_string(val) + (seq![',', ' '] + inner);
        let tail1 = seq![':', ' '] + tail2;
        assert(emit_meta_items(m) + rest =~= emit_string(k) + tail1);
        crate::json::lemma_parse_string_emit(k, tail1);
        crate::json::lemma_skip_ws_noop(tail1);
        assert(tail1[0] == ':');
        assert(tail1.drop_first() =~= seq![' '] + tail2);
        assert(tail2[0] == '"');
        crate::json::lemma_skip_ws_concat(seq![' '], tail2);
        crate::json::lemma_parse_string_emit(val, seq![',', ' '] + inner);
        let r5 = seq![',', ' '] + inner;
        crate::json::lemma_skip_ws_noop(r5);
        assert(r5[0] == ',');
        assert(r5.drop_first() =~= seq![' '] + inner);
        assert(emit_meta_items(tail)[0] == '"');
        assert(inner[0] == '"');
        crate::json::lemma_skip_ws_concat(seq![' '], inner);
        lemma_parse_meta_items_emit(tail, rest, (fuel - 1) as nat);
        assert(seq![(k, val)] + tail =~= m);
    }
}

/// Parsing undoes serializing for a metadata map.
proof fn lemma_parse_meta_emit(m: Seq<(Seq<char>, Seq<char>)>, rest: Seq<char>)
    ensures
        parse_meta(emit_meta(m) + rest) == Some((m, rest)),
{
    if m.len() == 0 {
        let s = emit_meta(m) + rest;
        assert(s[0] == '{');
        assert(s.drop_first() =~= seq!['}'] + rest);
        crate::json::lemma_skip_ws_noop(seq!['}'] + rest);
        assert((seq!['}'] + rest)[0] == '}');
        assert((seq!['}'] + rest).drop_first() =~= rest);
        assert(Seq::<(Seq<char>, Seq<char>)>::empty() =~= m);
    } else {
        let s = emit_meta(m) + rest;
        let t = emit_meta_items(m) + rest;
        assert(s[0] == '{');
        assert(s.drop_first() =~= t);
        assert(emit_meta_items(m)[0] == '"');
        assert(t[0] == '"');
        crate::json::lemma_skip_ws_noop(t);
        lemma_emit_meta_items_len(m);
        lemma_parse_meta_items_emit(m, rest, t.len());
    }
}

/// The ten member keys are pairwise distinct.
proof fn lemma_keys_distinct()
    ensures
        "name"@ != "type"@,
        "archive"@ != "type"@,
        "archive"@ != "name"@,
        "preview"@ != "type"@,
        "preview"@ != "name"@,
        "preview"@ != "archive"@,
        "size_mb"@ != "type"@,
        "size_mb"@ != "name"@,
        "size_mb"@ != "archive"@,
        "size_mb"@ != "preview"@,
        "thumbnail"@ != "type"@,
        "thumbnail"@ != "name"@,
        "thumbnail"@ != "archive"@,
        "thumbnail"@ != "preview"@,
        "thumbnail"@ != "size_mb"@,
        "stars"@ != "type"@,
        "stars"@ != "name"@,
        "stars"@ != "archive"@,
        "stars"@ != "preview"@,
        "stars"@ != "size_mb"@,
        "stars"@ != "thumbnail"@,
        "color"@ != "type"@,
        "color"@ != "name"@,
        "color"@ != "archive"@,
        "color"@ != "preview"@,
        "color"@ != "size_mb"@,
        "color"@ != "thumbnail"@,
        "color"@ != "stars"@,
        "textures_in_the_archive"@ != "type"@,
        "textures_in_the_archive"@ != "name"@,
        "textures_in_the_archive"@ != "archive"@,
        "textures_in_the_archive"@ != "preview"@,
        "textures_in_the_archive"@ != "size_mb"@,
        "textures_in_the_archive"@ != "thumbnail"@,
        "textures_in_the_archive"@ != "stars"@,
        "textures_in_the_archive"@ != "color"@,
        "meta"@ != "type"@,
        "meta"@ != "name"@,
        "meta"@ != "archive"@,
        "meta"@ != "preview"@,
        "meta"@ != "size_mb"@,
        "meta"@ != "thumbnail"@,
        "meta"@ != "stars"@,
        "meta"@ != "color"@,
        "meta"@ != "textures_in_the_archive"@,
{
    reveal_strlit("type");
    reveal_strlit("name");
    reveal_strlit("archive");
    reveal_strlit("preview");
    reveal_strlit("size_mb");
    reveal_strlit("thumbnail");
    reveal_strlit("stars");
    reveal_strlit("color");
    reveal_strlit("textures_in_the_archive");
    reveal_strlit("meta");
    assert("type"@.len() == 4 && "name"@.len() == 4 && "archive"@.len() == 7 && "preview"@.len()
        == 7 && "size_mb"@.len() == 7 && "thumbnail"@.len() == 9 && "stars"@.len() == 5
        && "color"@.len() == 5 && "textures_in_the_archive"@.len() == 23 && "meta"@.len() == 4);
    assert("type"@[0] == 't' && "name"@[0] == 'n' && "meta"@[0] == 'm');
    assert("archive"@[0] == 'a' && "preview"@[0] == 'p' && "size_mb"@[0] == 's');
    assert("stars"@[0] == 's' && "color"@[0] == 'c' && "thumbnail"@[0] == 't');
    assert("stars"@[1] == 't' && "color"@[1] == 'o');
}

/// A member opening parses to its key and lands after the colon on the
/// value.
proof fn lemma_kv_open(key: Seq<char>, val: Seq<char>, rest: Seq<char>)
    requires
        (val + rest).len() > 0,
        !is_ws((val + rest)[0]),
    ensures
        parse_string(kv(key, val, rest)) == Some((key, seq![':', ' '] + (val + rest))),
        skip_ws(seq![':', ' '] + (val + rest)) == seq![':', ' '] + (val + rest),
        (seq![':', ' '] + (val + rest))[0] == ':',
        skip_ws((seq![':', ' '] + (val + rest)).drop_first()) == val + rest,
{
    crate::json::lemma_parse_string_emit(key, seq![':', ' '] + (val + rest));
    crate::json::lemma_skip_ws_noop(seq![':', ' '] + (val + rest));
    assert((seq![':', ' '] + (val + rest)).drop_first() =~= seq![' '] + (val + rest));
    crate::json::lemma_skip_ws_concat(seq![' '], val + rest);
}

/// After a value, the separator parses to a comma and lands on the next
/// member.
proof fn lemma_sep_next(next: Seq<char>)
    requires
        next.len() > 0,
        !is_ws(next[0]),
    ensures
        skip_ws(sep() + next) == sep() + next,
        (sep() + next)[0] == ',',
        skip_ws((sep() + next).drop_first()) == next,
{
    crate::json::lemma_skip_ws_noop(sep() + next);
    assert((sep() + next).drop_first() =~= seq!['\n', ' ', ' '] + next);
    crate::json::lemma_skip_ws_concat(seq!['\n', ' ', ' '], next);
}

/// The last three members parse back, whatever arrived before them.
#[verifier::rlimit(100)]
#[verifier::spinoff_prover]
proof fn lemma_rt_members_last(v: AssetView, p: PartialRecord, fuel: nat)
    requires
        valid_view(v),
        p.color is None,
        p.textures is None,
        p.meta is None,
        fuel >= 3,
    ensures
        parse_members(members_last(v), p, fuel) == Some(
            (
                PartialRecord {
                    color: Some(v.color),
                    textures: Some(v.textures_in_archive),
                    meta: Some(v.meta),
                    ..p
                },
                Seq::<char>::empty(),
            ),
        ),
{
    reveal_with_fuel(parse_members, 5);
    lemma_keys_distinct();
    let colorval = match v.color {
        Some(c) => emit_string(c),
        None => null_chars(),
    };
    let tail_meta = seq!['\n', '}'];
    let kv_meta = kv("meta"@, emit_meta(v.meta), tail_meta);
    let kv_tex = kv(
        "textures_in_the_archive"@,
        bool_chars(v.textures_in_archive),
        sep() + kv_meta,
    );
    let rest1 = sep() + kv_tex;
    assert(members_last(v) == kv("color"@, colorval, rest1));

    match v.color {
        Some(c) => {
            assert(colorval[0] == '"');
        },
        None => {
            assert(colorval[0] == 'n');
        },
    }
    assert((colorval + rest1)[0] == colorval[0]);
    lemma_kv_open("color"@, colorval, rest1);
    match v.color {
        Some(c) => {
            crate::json::lemma_parse_string_emit(c, rest1);
            assert(colorval + rest1 == emit_string(c) + rest1);
            assert(parse_opt_string(colorval + rest1) == Some((Some(c), rest1)));
        },
        None => {
            assert(colorval + rest1 == null_chars() + rest1);
            crate::json::lemma_parse_lit_emit(null_chars(), rest1);
            assert(parse_opt_string(colorval + rest1) == Some((None::<Seq<char>>, rest1)));
        },
    }
    let p1 = PartialRecord { color: Some(v.color), ..p };
    assert(parse_member_value("color"@, colorval + rest1, p) == Some((p1, rest1)));
    assert(kv_tex[0] == '"');
    lemma_sep_next(kv_tex);

    let rest2 = sep() + kv_meta;
    if v.textures_in_archive {
        assert(bool_chars(v.textures_in_archive)[0] == 't');
    } else {
        assert(bool_chars(v.textures_in_archive)[0] == 'f');
    }
    assert((bool_chars(v.textures_in_archive) + rest2)[0] == bool_chars(v.textures_in_archive)[0]);
    lemma_kv_open("textures_in_the_archive"@, bool_chars(v.textures_in_archive), rest2);
    crate::json::lemma_parse_lit_emit(bool_chars(v.textures_in_archive), rest2);
    assert(parse_bool(bool_chars(v.textures_in_archive) + rest2) == Some(
        (v.textures_in_archive, rest2),
    ));
    let p2 = PartialRecord { textures: Some(v.textures_in_archive), ..p1 };
    assert(kv_meta[0] == '"');
    lemma_sep_next(kv_meta);

    assert(emit_meta(v.meta)[0] == '{');
    assert((emit_meta(v.meta) + tail_meta)[0] == '{');
    lemma_kv_open("meta"@, emit_meta(v.meta), tail_meta);
    lemma_parse_meta_emit(v.meta, tail_meta);
    let p3 = PartialRecord { meta: Some(v.meta), ..p2 };
    crate::json::lemma_skip_ws_concat(seq!['\n'], seq!['}']);
    assert(tail_meta =~= seq!['\n'] + seq!['}']);
    let rm = skip_ws(tail_meta);
    assert(rm =~= seq!['}']);
    assert(rm[0] == '}');
    assert(rm.drop_first() =~= Seq::<char>::empty());
    assert(p3 == PartialRecord {
        color: Some(v.color),
        textures: Some(v.textures_in_archive),
        meta: Some(v.meta),
        ..p
    });
}

/// The middle three members parse back, continuing into the last three.
#[verifier::rlimit(100)]
#[verifier::spinoff_prover]
proof fn lemma_rt_members_mid(v: AssetView, p: PartialRecord, fuel: nat)
    requires
        valid_view(v),
        p.size is None,
        p.thumbnail is None,
        p.stars is None,
        p.color is None,
        p.textures is None,
        p.meta is None,
        fuel >= 6,
    ensures
        parse_members(members_mid(v), p, fuel) == Some(
            (
                PartialRecord {
                    size: Some(v.size_mb_hundredths),
                    thumbnail: Some(v.thumbnail),
                    stars: Some(v.stars),
                    color: Some(v.color),
                    textures: Some(v.textures_in_archive),
                    meta: Some(v.meta),
                    ..p
                },
                Seq::<char>::empty(),
            ),
        ),
{
    reveal_with_fuel(parse_members, 5);
    lemma_keys_distinct();
    let starsval = match v.stars {
        Some(s) => emit_int(s),
        None => null_chars(),
    };
    let kv_stars = kv("stars"@, starsval, sep() + members_last(v));
    let kv_thumb = kv("thumbnail"@, emit_string(v.thumbnail), sep() + kv_stars);
    let rest1 = sep() + kv_thumb;
    let sizeval = emit_hundredths(v.size_mb_hundredths);
    assert(members_mid(v) == kv("size_mb"@, sizeval, rest1));

    crate::json::lemma_emit_u64_digits(v.size_mb_hundredths / 100);
    assert(sizeval[0] == emit_u64(v.size_mb_hundredths / 100)[0]);
    assert(crate::json::is_digit(sizeval[0]) && !is_ws(sizeval[0]));
    assert((sizeval + rest1)[0] == sizeval[0]);
    lemma_kv_open("size_mb"@, sizeval, rest1);
    assert(rest1[0] == ',');
    crate::json::lemma_parse_hundredths_emit(v.size_mb_hundredths, rest1);
    let p1 = PartialRecord { size: Some(v.size_mb_hundredths), ..p };
    assert(kv_thumb[0] == '"');
    lemma_sep_next(kv_thumb);

    assert((emit_string(v.thumbnail) + (sep() + kv_stars))[0] == '"');
    lemma_kv_open("thumbnail"@, emit_string(v.thumbnail), sep() + kv_stars);
    crate::json::lemma_parse_string_emit(v.thumbnail, sep() + kv_stars);
    let p2 = PartialRecord { thumbnail: Some(v.thumbnail), ..p1 };
    assert(kv_stars[0] == '"');
    lemma_sep_next(kv_stars);

    let rest3 = sep() + members_last(v);
    match v.stars {
        Some(s) => {
            if s < 0 {
                assert(starsval[0] == '-');
            } else {
                crate::json::lemma_emit_u64_digits(s as nat);
                assert(starsval[0] == emit_int(s)[0]);
                assert(crate::json::is_digit(starsval[0]));
            }
            assert(!is_ws(starsval[0]) && starsval[0] != 'n');
            assert((starsval + rest3)[0] == starsval[0]);
            lemma_kv_open("stars"@, starsval, rest3);
            assert(rest3[0] == ',');
            crate::json::lemma_parse_i32_emit(s, rest3);
            assert(parse_opt_i32(starsval + rest3) == Some((Some(s), rest3)));
        },
        None => {
            assert(starsval[0] == 'n');
            assert((starsval + rest3)[0] == starsval[0]);
            lemma_kv_open("stars"@, starsval, rest3);
            assert(starsval + rest3 == null_chars() + rest3);
            crate::json::lemma_parse_lit_emit(null_chars(), rest3);
            assert(parse_opt_i32(starsval + rest3) == Some((None::<int>, rest3)));
        },
    }
    let p3 = PartialRecord { stars: Some(v.stars), ..p2 };
    assert(members_last(v)[0] == '"');
    lemma_sep_next(members_last(v));
    lemma_rt_members_last(v, p3, (fuel - 3) as nat);
    assert(PartialRecord {
        color: Some(v.color),
        textures: Some(v.textures_in_archive),
        meta: Some(v.meta),
        ..p3
    } == PartialRecord {
        size: Some(v.size_mb_hundredths),
        thumbnail: Some(v.thumbnail),
        stars: Some(v.stars),
        color: Some(v.color),
        textures: Some(v.textures_in_archive),
        meta: Some(v.meta),
        ..p
    });
}

/// All ten members parse back from a blank slate.
#[verifier::rlimit(100)]
#[verifier::spinoff_prover]
proof fn lemma_rt_members_head(v: AssetView, p: PartialRecord, fuel: nat)
    requires
        valid_view(v),
        !p.kind_seen,
        p.name is None,
        p.archive is None,
        p.preview is None,
        p.size is None,
        p.thumbnail is None,
        p.stars is None,
        p.color is None,
        p.textures is None,
        p.meta is None,
        fuel >= 10,
    ensures
        parse_members(members_head(v), p, fuel) == Some(
            (
                PartialRecord {
                    kind_seen: true,
                    name: Some(v.name),
                    archive: Some(v.archive),
                    preview: Some(v.preview),
                    size: Some(v.size_mb_hundredths),
                    thumbnail: Some(v.thumbnail),
                    stars: Some(v.stars),
                    color: Some(v.color),
                    textures: Some(v.textures_in_archive),
                    meta: Some(v.meta),
                },
                Seq::<char>::empty(),
            ),
        ),
{
    reveal_with_fuel(parse_members, 6);
    lemma_keys_distinct();
    let kv_preview = kv("preview"@, emit_string(v.preview), sep() + members_mid(v));
    let kv_archive = kv("archive"@, emit_string(v.archive), sep() + kv_preview);
    let kv_name = kv("name"@, emit_string(v.name), sep() + kv_archive);
    assert(members_head(v) == kv("type"@, emit_string("asset"@), sep() + kv_name));

    assert((emit_string("asset"@) + (sep() + kv_name))[0] == '"');
    lemma_kv_open("type"@, emit_string("asset"@), sep() + kv_name);
    crate::json::lemma_parse_string_emit("asset"@, sep() + kv_name);
    let p1 = PartialRecord { kind_seen: true, ..p };
    assert(kv_name[0] == '"');
    lemma_sep_next(kv_name);

    assert((emit_string(v.name) + (sep() + kv_archive))[0] == '"');
    lemma_kv_open("name"@, emit_string(v.name), sep() + kv_archive);
    crate::json::lemma_parse_string_emit(v.name, sep() + kv_archive);
    let p2 = PartialRecord { name: Some(v.name), ..p1 };
    assert(kv_archive[0] == '"');
    lemma_sep_next(kv_archive);

    assert((emit_string(v.archive) + (sep() + kv_preview))[0] == '"');
    lemma_kv_open("archive"@, emit_string(v.archive), sep() + kv_preview);
    crate::json::lemma_parse_string_emit(v.archive, sep() + kv_preview);
    let p3 = PartialRecord { archive: Some(v.archive), ..p2 };
    assert(kv_preview[0] == '"');
    lemma_sep_next(kv_preview);

    assert((emit_string(v.preview) + (sep() + members_mid(v)))[0] == '"');
    lemma_kv_open("preview"@, emit_string(v.preview), sep() + members_mid(v));
    crate::json::lemma_parse_string_emit(v.preview, sep() + members_mid(v));
    let p4 = PartialRecord { preview: Some(v.preview), ..p3 };
    assert(members_mid(v)[0] == '"');
    lemma_sep_next(members_mid(v));
    lemma_rt_members_mid(v, p4, (fuel - 4) as nat);
}

/// Reading a serialized record yields the record back: the sidecar format
/// round-trips for every record whose numbers fit its machine types.
#[verifier::rlimit(100)]
#[verifier::spinoff_prover]
pub proof fn lemma_record_round_trip(v: AssetView)
    requires
        valid_view(v),
    ensures
        parse_record(emit_record(v)) == Some(v),
{
    let whole = emit_record(v);
    assert(whole[0] == '{');
    crate::json::lemma_skip_ws_noop(whole);
    assert(whole.drop_first() =~= seq!['\n', ' ', ' '] + members_head(v));
    assert(members_head(v)[0] == '"');
    crate::json::lemma_skip_ws_concat(seq!['\n', ' ', ' '], members_head(v));
    lemma_rt_members_head(v, empty_partial(), 11);
    crate::json::lemma_skip_ws_noop(Seq::<char>::empty());
    assert(parse_record(emit_record(v)) == Some(v));
}

/// Emits the opening of one member: indentation, key, colon.
fn emit_member_prefix(out: &mut Vec<char>, key: &str)
    ensures
        final(out)@ == old(out)@ + member_prefix(key@),
{
    out.push(' ');
    out.push(' ');
    crate::json::emit_string_chars(out, key);
    out.push(':');
    out.push(' ');
    assert(out@ =~= old(out)@ + member_prefix(key@));
}

/// Emits the member separator.
fn emit_comma_nl(out: &mut Vec<char>)
    ensures
        final(out)@ == old(out)@ + comma_nl(),
{
    out.push(',');
    out.push('\n');
    assert(out@ =~= old(out)@ + comma_nl());
}

/// Emits the `null` literal.
fn emit_null(out: &mut Vec<char>)
    ensures
        final(out)@ == old(out)@ + null_chars(),
{
    out.push('n');
    out.push('u');
    out.push('l');
    out.push('l');
    assert(out@ =~= old(out)@ + null_chars());
}

/// Emits a boolean literal.
fn emit_bool(out: &mut Vec<char>, b: bool)
    ensures
        final(out)@ == old(out)@ + bool_chars(b),
{
    if b {
        out.push('t');
        out.push('r');
        out.push('u');
        out.push('e');
    } else {
        out.push('f');
        out.push('a');
        out.push('l');
        out.push('s');
        out.push('e');
    }
    assert(out@ =~= old(out)@ + bool_chars(b));
}

/// Emits a metadata map.
fn emit_meta_chars(out: &mut Vec<char>, m: &Vec<(String, String)>)
    ensures
        final(out)@ == old(out)@ + emit_meta(m@.map_values(|p: (String, String)| pair_view(p))),
{
    let ghost mv = m@.map_values(|p: (String, String)| pair_view(p));
    out.push('{');
    let n: usize = m.len();
    if n == 0 {
        out.push('}');
        assert(out@ =~= old(out)@ + emit_meta(mv));
        return ;
    }
    let mut i: usize = 0;
    proof {
        assert(mv.skip(0) =~= mv);
        assert(out@ + emit_meta_items(mv) =~= old(out)@ + emit_meta(mv));
    }
    while i < n
        invariant
            n == m@.len(),
            n > 0,
            i <= n,
            mv == m@.map_values(|p: (String, String)| pair_view(p)),
            i < n ==> out@ + emit_meta_items(mv.skip(i as int)) == old(out)@ + emit_meta(mv),
            i == n ==> out@ == old(out)@ + emit_meta(mv),
        decreases n - i,
    {
        let ghost before = out@;
        let ghost rest = mv.skip(i as int);
        crate::json::emit_string_chars(out, m[i].0.as_str());
        out.push(':');
        out.push(' ');
        crate::json::emit_string_chars(out, m[i].1.as_str());
        proof {
            assert(rest[0] == mv[i as int]);
            assert(mv[i as int] == pair_view(m@[i as int]));
        }
        if i + 1 < n {
            out.push(',');
            out.push(' ');
            proof {
                assert(rest.drop_first() =~= mv.skip(i + 1));
                assert(emit_meta_items(rest) =~= emit_string(rest[0].0) + seq![':', ' ']
                    + emit_string(rest[0].1) + seq![',', ' '] + emit_meta_items(mv.skip(i + 1)));
                assert(out@ + emit_meta_items(mv.skip(i + 1)) =~= before + emit_meta_items(rest));
            }
        } else {
            out.push('}');
            proof {
                assert(emit_meta_items(rest) =~= emit_string(rest[0].0) + seq![':', ' ']
                    + emit_string(rest[0].1) + seq!['}']);
                assert(out@ =~= before + emit_meta_items(rest));
            }
        }
        i = i + 1;
    }
}

/// Emits the member separator: comma, line break, indent.
fn emit_sep(out: &mut Vec<char>)
    ensures
        final(out)@ == old(out)@ + sep(),
{
    out.push(',');
    out.push('\n');
    out.push(' ');
    out.push(' ');
    assert(out@ =~= old(out)@ + sep());
}

/// Emits one member opening: the quoted key, colon, space.
fn emit_key(out: &mut Vec<char>, key: &str)
    ensures
        final(out)@ == old(out)@ + (emit_string(key@) + seq![':', ' ']),
{
    crate::json::emit_string_chars(out, key);
    out.push(':');
    out.push(' ');
    assert(out@ =~= old(out)@ + (emit_string(key@) + seq![':', ' ']));
}

/// Emits the members from `color` on, closing brace included.
#[verifier::rlimit(100)]
#[verifier::spinoff_prover]
fn emit_members_last(out: &mut Vec<char>, a: &Asset)
    ensures
        final(out)@ == old(out)@ + members_last(a@),
{
    emit_key(out, "color");
    match &a.color {
        Some(c) => crate::json::emit_string_chars(out, c.as_str()),
        None => emit_null(out),
    }
    emit_sep(out);
    emit_key(out, "textures_in_the_archive");
    emit_bool(out, a.textures_in_archive);
    emit_sep(out);
    emit_key(out, "meta");
    emit_meta_chars(out, &a.meta);
    out.push('\n');
    out.push('}');
    assert(out@ =~= old(out)@ + members_last(a@));
}

/// Emits the members from `size_mb` on.
#[verifier::rlimit(100)]
#[verifier::spinoff_prover]
fn emit_members_mid(out: &mut Vec<char>, a: &Asset)
    ensures
        final(out)@ == old(out)@ + members_mid(a@),
{
    emit_key(out, "size_mb");
    crate::json::emit_hundredths_chars(out, a.size_mb_hundredths);
    emit_sep(out);
    emit_key(out, "thumbnail");
    crate::json::emit_string_chars(out, a.thumbnail.as_str());
    emit_sep(out);
    emit_key(out, "stars");
    match a.stars {
        Some(s) => crate::json::emit_i32_chars(out, s),
        None => emit_null(out),
    }
    emit_sep(out);
    emit_members_last(out, a);
    assert(out@ =~= old(out)@ + members_mid(a@));
}

/// Emits the members from `type` on.
#[verifier::rlimit(100)]
#[verifier::spinoff_prover]
fn emit_members_head(out: &mut Vec<char>, a: &Asset)
    ensures
        final(out)@ == old(out)@ + members_head(a@),
{
    emit_key(out, "type");
    crate::json::emit_string_chars(out, "asset");
    emit_sep(out);
    emit_key(out, "name");
    crate::json::emit_string_chars(out, a.name.as_str());
    emit_sep(out);
    emit_key(out, "archive");
    crate::json::emit_string_chars(out, a.archive.as_str());
    emit_sep(out);
    emit_key(out, "preview");
    crate::json::emit_string_chars(out, a.preview.as_str());
    emit_sep(out);
    emit_members_mid(out, a);
    assert(out@ =~= old(out)@ + members_head(a@));
}

/// Serializes a record to its sidecar text, exactly [`emit_record`] of its
/// view.
pub fn serialize_asset(a: &Asset) -> (r: String)
    ensures
        r@ == emit_record(a@),
{
    let mut out: Vec<char> = Vec::new();
    out.push('{');
    out.push('\n');
    out.push(' ');
    out.push(' ');
    emit_members_head(&mut out, a);
    assert(out@ =~= emit_record(a@));
    crate::text::chars_to_string(&out)
}

/// Parses an integer or `null` at position `i`, as [`parse_opt_i32`].
fn parse_opt_i32_exec(v: &Vec<char>, i: usize) -> (r: Option<(Option<i32>, usize)>)
    requires
        i <= v@.len(),
    ensures
        match r {
            Some(p) => p.1 <= v@.len() && parse_opt_i32(v@.skip(i as int)) == Some(
                (
                    match p.0 {
                        Some(x) => Some(x as int),
                        None => None,
                    },
                    v@.skip(p.1 as int),
                ),
            ),
            None => parse_opt_i32(v@.skip(i as int)) is None,
        },
{
    proof {
        reveal_strlit("null");
        assert("null"@ =~= null_chars());
        if i < v@.len() {
            assert(v@.skip(i as int)[0] == v@[i as int]);
        }
    }
    if i < v.len() && v[i] == 'n' {
        match crate::json::parse_lit_exec(v, i, "null") {
            Some(j) => Some((None, j)),
            None => None,
        }
    } else {
        match crate::json::parse_i32_exec(v, i) {
            Some((x, j)) => Some((Some(x), j)),
            None => None,
        }
    }
}

/// Parses a string or `null` at position `i`, as [`parse_opt_string`].
fn parse_opt_string_exec(v: &Vec<char>, i: usize) -> (r: Option<(Option<String>, usize)>)
    requires
        i <= v@.len(),
    ensures
        match r {
            Some(p) => p.1 <= v@.len() && parse_opt_string(v@.skip(i as int)) == Some(
                (
                    match p.0 {
                        Some(ref x) => Some(x@),
                        None => None,
                    },
                    v@.skip(p.1 as int),
                ),
            ),
            None => parse_opt_string(v@.skip(i as int)) is None,
        },
{
    proof {
        reveal_strlit("null");
        assert("null"@ =~= null_chars());
        if i < v@.len() {
            assert(v@.skip(i as int)[0] == v@[i as int]);
        }
    }
    if i < v.len() && v[i] == 'n' {
        match crate::json::parse_lit_exec(v, i, "null") {
            Some(j) => Some((None, j)),
            None => None,
        }
    } else {
        match crate::json::parse_string_exec(v, i) {
            Some((x, j)) => Some((Some(x), j)),
            None => None,
        }
    }
}

/// Parses `true` or `false` at position `i`, as [`parse_bool`].
fn parse_bool_exec(v: &Vec<char>, i: usize) -> (r: Option<(bool, usize)>)
    requires
        i <= v@.len(),
    ensures
        match r {
            Some(p) => p.1 <= v@.len() && parse_bool(v@.skip(i as int)) == Some(
                (p.0, v@.skip(p.1 as int)),
            ),
            None => parse_bool(v@.skip(i as int)) is None,
        },
{
    proof {
        reveal_strlit("true");
        reveal_strlit("false");
        assert("true"@ =~= bool_chars(true));
        assert("false"@ =~= bool_chars(false));
        if i < v@.len() {
            assert(v@.skip(i as int)[0] == v@[i as int]);
        }
    }
    if i < v.len() && v[i] == 't' {
        match crate::json::parse_lit_exec(v, i, "true") {
            Some(j) => Some((true, j)),
            None => None,
        }
    } else {
        match crate::json::parse_lit_exec(v, i, "false") {
            Some(j) => Some((false, j)),
            None => None,
        }
    }
}

/// Joins already-parsed metadata pairs onto a parse result.
spec fn meta_compose(
    a: Seq<(Seq<char>, Seq<char>)>,
    r: Option<(Seq<(Seq<char>, Seq<char>)>, Seq<char>)>,
) -> Option<(Seq<(Seq<char>, Seq<char>)>, Seq<char>)> {
    match r {
        Some(p) => Some((a + p.0, p.1)),
        None => None,
    }
}

/// Parses a metadata map at position `i`, as [`parse_meta`].
fn parse_meta_exec(v: &Vec<char>, i: usize) -> (r: Option<(Vec<(String, String)>, usize)>)
    requires
        i <= v@.len(),
    ensures
        match r {
            Some(p) => p.1 <= v@.len() && parse_meta(v@.skip(i as int)) == Some(
                (p.0@.map_values(|q: (String, String)| pair_view(q)), v@.skip(p.1 as int)),
            ),
            None => parse_meta(v@.skip(i as int)) is None,
        },
{
    if i >= v.len() {
        return None;
    }
    proof {
        assert(v@.skip(i as int)[0] == v@[i as int]);
    }
    if v[i] != '{' {
        return None;
    }
    proof {
        assert(v@.skip(i as int).drop_first() =~= v@.skip(i + 1));
    }
    let t0 = crate::json::ws_exec(v, i + 1);
    let ghost t = v@.skip(t0 as int);
    if t0 < v.len() && v[t0] == '}' {
        proof {
            assert(t[0] == v@[t0 as int]);
            assert(t.drop_first() =~= v@.skip(t0 + 1));
        }
        let pairs: Vec<(String, String)> = Vec::new();
        proof {
            assert(pairs@.map_values(|q: (String, String)| pair_view(q)) =~= Seq::<
                (Seq<char>, Seq<char>),
            >::empty());
        }
        return Some((pairs, t0 + 1));
    }
    proof {
        if t0 < v@.len() {
            assert(t[0] == v@[t0 as int]);
        }
    }
    let mut acc: Vec<(String, String)> = Vec::new();
    let mut cur: usize = t0;
    let ghost mut fuel: nat = t.len();
    proof {
        assert(acc@.map_values(|q: (String, String)| pair_view(q)) =~= Seq::<
            (Seq<char>, Seq<char>),
        >::empty());
        assert forall|ps: Seq<(Seq<char>, Seq<char>)>| true implies Seq::<
            (Seq<char>, Seq<char>),
        >::empty() + ps =~= ps by {}
        let s0 = v@.skip(i as int);
        assert(s0[0] == v@[i as int]);
        assert(s0.drop_first() =~= v@.skip(i + 1));
        assert(parse_meta(s0) == parse_meta_items(t, t.len()));
    }
    loop
        invariant
            t0 <= cur <= v@.len(),
            t == v@.skip(t0 as int),
            fuel >= v@.len() - cur,
            parse_meta(v@.skip(i as int)) == parse_meta_items(t, t.len()),
            parse_meta_items(t, t.len()) == meta_compose(
                acc@.map_values(|q: (String, String)| pair_view(q)),
                parse_meta_items(v@.skip(cur as int), fuel),
            ),
        decreases v@.len() - cur,
    {
        let ghost s = v@.skip(cur as int);
        let ghost acc_view = acc@.map_values(|q: (String, String)| pair_view(q));
        proof {
            if fuel == 0 {
                assert(cur == v@.len());
                assert(s.len() == 0);
            }
        }
        let parsed_key = match crate::json::parse_string_exec(v, cur) {
            Some(p) => p,
            None => {
                proof {
                    if fuel != 0 {
                        assert(parse_meta_items(s, fuel) is None);
                    }
                }
                return None;
            },
        };
        let (k, j1) = parsed_key;
        proof {
            assert(fuel != 0);
        }
        let j2 = crate::json::ws_exec(v, j1);
        if j2 >= v.len() {
            return None;
        }
        proof {
            assert(v@.skip(j2 as int)[0] == v@[j2 as int]);
        }
        if v[j2] != ':' {
            return None;
        }
        proof {
            assert(v@.skip(j2 as int).drop_first() =~= v@.skip(j2 + 1));
        }
        let j3 = crate::json::ws_exec(v, j2 + 1);
        let parsed_val = match crate::json::parse_string_exec(v, j3) {
            Some(p) => p,
            None => {
                return None;
            },
        };
        let (val, j4) = parsed_val;
        let j5 = crate::json::ws_exec(v, j4);
        if j5 >= v.len() {
            return None;
        }
        proof {
            assert(v@.skip(j5 as int)[0] == v@[j5 as int]);
        }
        if v[j5] == ',' {
            proof {
                assert(v@.skip(j5 as int).drop_first() =~= v@.skip(j5 + 1));
            }
            let j6 = crate::json::ws_exec(v, j5 + 1);
            proof {
                assert(parse_meta_items(s, fuel) == (match parse_meta_items(
                    v@.skip(j6 as int),
                    (fuel - 1) as nat,
                ) {
                    Some((ps, r)) => Some((seq![(k@, val@)] + ps, r)),
                    None => None,
                }));
                assert forall|ps: Seq<(Seq<char>, Seq<char>)>| true implies acc_view + (seq![
                    (k@, val@),
                ] + ps) =~= acc_view.push((k@, val@)) + ps by {}
                assert(acc@.push((k, val)).map_values(|q: (String, String)| pair_view(q))
                    =~= acc_view.push((k@, val@)));
            }
            acc.push((k, val));
            proof {
                fuel = (fuel - 1) as nat;
            }
            cur = j6;
        } else if v[j5] == '}' {
            proof {
                assert(parse_meta_items(s, fuel) == Some(
                    (seq![(k@, val@)], v@.skip(j5 as int).drop_first()),
                ));
                assert(v@.skip(j5 as int).drop_first() =~= v@.skip(j5 + 1));
                assert(acc@.push((k, val)).map_values(|q: (String, String)| pair_view(q))
                    =~= acc_view.push((k@, val@)));
                assert(acc_view + seq![(k@, val@)] =~= acc_view.push((k@, val@)));
            }
            acc.push((k, val));
            return Some((acc, j5 + 1));
        } else {
            return None;
        }
    }
}

/// The fields gathered so far while reading a record's members.
struct PartialAsset {
    kind_seen: bool,
    name: Option<String>,
    archive: Option<String>,
    preview: Option<String>,
    size: Option<u64>,
    thumbnail: Option<String>,
    stars: Option<Option<i32>>,
    color: Option<Option<String>>,
    textures: Option<bool>,
    meta: Option<Vec<(String, String)>>,
}

impl View for PartialAsset {
    type V = PartialRecord;

    closed spec fn view(&self) -> PartialRecord {
        PartialRecord {
            kind_seen: self.kind_seen,
            name: match self.name {
                Some(ref x) => Some(x@),
                None => None,
            },
            archive: match self.archive {
                Some(ref x) => Some(x@),
                None => None,
            },
            preview: match self.preview {
                Some(ref x) => Some(x@),
                None => None,
            },
            size: match self.size {
                Some(x) => Some(x as nat),
                None => None,
            },
            thumbnail: match self.thumbnail {
                Some(ref x) => Some(x@),
                None => None,
            },
            stars: match self.stars {
                Some(o) => Some(
                    match o {
                        Some(x) => Some(x as int),
                        None => None,
                    },
                ),
                None => None,
            },
            color: match self.color {
                Some(ref o) => Some(
                    match o {
                        Some(ref x) => Some(x@),
                        None => None,
                    },
                ),
                None => None,
            },
            textures: match self.textures {
                Some(x) => Some(x),
                None => None,
            },
            meta: match self.meta {
                Some(ref m) => Some(m@.map_values(|q: (String, String)| pair_view(q))),
                None => None,
            },
        }
    }
}


/// Parses and stores the value of one member at position `j3`, as
/// [`parse_member_value`] of the key.
#[verifier::rlimit(100)]
#[verifier::spinoff_prover]
fn parse_one_member(v: &Vec<char>, j3: usize, key: &String, partial: &mut PartialAsset) -> (r:
    Option<usize>)
    requires
        j3 <= v@.len(),
    ensures
        match r {
            Some(j4) => j4 <= v@.len() && parse_member_value(
                key@,
                v@.skip(j3 as int),
                old(partial)@,
            ) == Some((final(partial)@, v@.skip(j4 as int))) && taken_count(final(partial)@)
                == taken_count(old(partial)@) + 1,
            None => parse_member_value(key@, v@.skip(j3 as int), old(partial)@) is None,
        },
{
    proof {
        lemma_keys_distinct();
    }
    let ghost p_old = partial@;
    let ghost val_s = v@.skip(j3 as int);
    let mut j4: usize = 0;
    let k_type = String::from_str("type");
    let k_name = String::from_str("name");
    let k_archive = String::from_str("archive");
    let k_preview = String::from_str("preview");
    let k_size_mb = String::from_str("size_mb");
    let k_thumbnail = String::from_str("thumbnail");
    let k_stars = String::from_str("stars");
    let k_color = String::from_str("color");
    let k_textures = String::from_str("textures_in_the_archive");
    let k_meta = String::from_str("meta");
    if key.eq(&k_type) {
        if partial.kind_seen {
            return None;
        }
        let parsed = match crate::json::parse_string_exec(v, j3) {
            Some(p) => p,
            None => {
                return None;
            },
        };
        let (tv, jv) = parsed;
        let asset_s = String::from_str("asset");
        if !tv.eq(&asset_s) {
            return None;
        }
        partial.kind_seen = true;
        j4 = jv;
    } else if key.eq(&k_name) {
        if partial.name.is_some() {
            return None;
        }
        match crate::json::parse_string_exec(v, j3) {
            Some((x, jv)) => {
                partial.name = Some(x);
                j4 = jv;
            },
            None => {
                return None;
            },
        }
    } else if key.eq(&k_archive) {
        if partial.archive.is_some() {
            return None;
        }
        match crate::json::parse_string_exec(v, j3) {
            Some((x, jv)) => {
                partial.archive = Some(x);
                j4 = jv;
            },
            None => {
                return None;
            },
        }
    } else if key.eq(&k_preview) {
        if partial.preview.is_some() {
            return None;
        }
        match crate::json::parse_string_exec(v, j3) {
            Some((x, jv)) => {
                partial.preview = Some(x);
                j4 = jv;
            },
            None => {
                return None;
            },
        }
    } else if key.eq(&k_size_mb) {
        if partial.size.is_some() {
            return None;
        }
        match crate::json::parse_hundredths_exec(v, j3) {
            Some((x, jv)) => {
                partial.size = Some(x);
                j4 = jv;
            },
            None => {
                return None;
            },
        }
    } else if key.eq(&k_thumbnail) {
        if partial.thumbnail.is_some() {
            return None;
        }
        match crate::json::parse_string_exec(v, j3) {
            Some((x, jv)) => {
                partial.thumbnail = Some(x);
                j4 = jv;
            },
            None => {
                return None;
            },
        }
    } else if key.eq(&k_stars) {
        if partial.stars.is_some() {
            return None;
        }
        match parse_opt_i32_exec(v, j3) {
            Some((x, jv)) => {
                partial.stars = Some(x);
                j4 = jv;
            },
            None => {
                return None;
            },
        }
    } else if key.eq(&k_color) {
        if partial.color.is_some() {
            return None;
        }
        match parse_opt_string_exec(v, j3) {
            Some((x, jv)) => {
                partial.color = Some(x);
                j4 = jv;
            },
            None => {
                return None;
            },
        }
    } else if key.eq(&k_textures) {
        if partial.textures.is_some() {
            return None;
        }
        match parse_bool_exec(v, j3) {
            Some((x, jv)) => {
                partial.textures = Some(x);
                j4 = jv;
            },
            None => {
                return None;
            },
        }
    } else if key.eq(&k_meta) {
        if partial.meta.is_some() {
            return None;
        }
        match parse_meta_exec(v, j3) {
            Some((x, jv)) => {
                partial.meta = Some(x);
                j4 = jv;
            },
            None => {
                return None;
            },
        }
    } else {
        return None;
    }
    proof {
        assert(parse_member_value(key@, val_s, p_old) == Some((partial@, v@.skip(j4 as int))));
        assert(taken_count(partial@) == taken_count(p_old) + 1);
    }
    Some(j4)
}


/// Builds the record from a finished member set, failing when any member
/// is missing, as [`complete_view`].
#[verifier::rlimit(100)]
#[verifier::spinoff_prover]
fn complete_record(partial: PartialAsset) -> (r: Option<Asset>)
    ensures
        match r {
            Some(a) => complete_view(partial@) == Some(a@),
            None => complete_view(partial@) is None,
        },
{
    let ghost p_final = partial@;
    if !partial.kind_seen {
        return None;
    }
    let name = match partial.name {
        Some(x) => x,
        None => {
            return None;
        },
    };
    let archive = match partial.archive {
        Some(x) => x,
        None => {
            return None;
        },
    };
    let preview = match partial.preview {
        Some(x) => x,
        None => {
            return None;
        },
    };
    let size = match partial.size {
        Some(x) => x,
        None => {
            return None;
        },
    };
    let thumbnail = match partial.thumbnail {
        Some(x) => x,
        None => {
            return None;
        },
    };
    let stars = match partial.stars {
        Some(x) => x,
        None => {
            return None;
        },
    };
    let color = match partial.color {
        Some(x) => x,
        None => {
            return None;
        },
    };
    let textures = match partial.textures {
        Some(x) => x,
        None => {
            return None;
        },
    };
    let meta = match partial.meta {
        Some(x) => x,
        None => {
            return None;
        },
    };
    let a = Asset {
        name,
        archive,
        preview,
        size_mb_hundredths: size,
        thumbnail,
        stars,
        color,
        textures_in_archive: textures,
        meta,
    };
    proof {
        assert(complete_view(p_final) == Some(a@));
    }
    return Some(a);
}

/// What one member round decides: carry on after a comma, close at the
/// brace, or reject.
enum MemberRound {
    Continue(usize),
    Done(usize),
    Fail,
}

/// Parses one `"key": value` member at position `i` together with what
/// follows it: a comma means another member comes, a brace closes the
/// object.  The outcome mirrors one unfolding of [`parse_members`], for
/// any non-zero fuel.
#[verifier::rlimit(100)]
#[verifier::spinoff_prover]
fn parse_member_round(v: &Vec<char>, i: usize, partial: &mut PartialAsset) -> (r: MemberRound)
    requires
        i <= v@.len(),
    ensures
        forall|fuel: nat|
            fuel >= 1 ==> #[trigger] parse_members(v@.skip(i as int), old(partial)@, fuel)
                == (match r {
                MemberRound::Continue(j) => parse_members(
                    v@.skip(j as int),
                    final(partial)@,
                    (fuel - 1) as nat,
                ),
                MemberRound::Done(j) => Some((final(partial)@, v@.skip(j as int))),
                MemberRound::Fail => None::<(PartialRecord, Seq<char>)>,
            }),
        match r {
            MemberRound::Continue(j) => j <= v@.len() && taken_count(final(partial)@)
                == taken_count(old(partial)@) + 1,
            MemberRound::Done(j) => j <= v@.len() && taken_count(final(partial)@) == taken_count(
                old(partial)@,
            ) + 1,
            MemberRound::Fail => true,
        },
{
    let ghost s = v@.skip(i as int);
    let ghost p_old = partial@;
    let parsed_key = match crate::json::parse_string_exec(v, i) {
        Some(p) => p,
        None => {
            return MemberRound::Fail;
        },
    };
    let (key, j1) = parsed_key;
    let j2 = crate::json::ws_exec(v, j1);
    if j2 >= v.len() {
        return MemberRound::Fail;
    }
    proof {
        assert(v@.skip(j2 as int)[0] == v@[j2 as int]);
    }
    if v[j2] != ':' {
        return MemberRound::Fail;
    }
    proof {
        assert(v@.skip(j2 as int).drop_first() =~= v@.skip(j2 + 1));
    }
    let j3 = crate::json::ws_exec(v, j2 + 1);
    let j4 = match parse_one_member(v, j3, &key, partial) {
        Some(j) => j,
        None => {
            return MemberRound::Fail;
        },
    };
    let j5 = crate::json::ws_exec(v, j4);
    if j5 >= v.len() {
        return MemberRound::Fail;
    }
    proof {
        assert(v@.skip(j5 as int)[0] == v@[j5 as int]);
    }
    if v[j5] == ',' {
        proof {
            assert(v@.skip(j5 as int).drop_first() =~= v@.skip(j5 + 1));
        }
        let j6 = crate::json::ws_exec(v, j5 + 1);
        MemberRound::Continue(j6)
    } else if v[j5] == '}' {
        proof {
            assert(v@.skip(j5 as int).drop_first() =~= v@.skip(j5 + 1));
        }
        MemberRound::Done(j5 + 1)
    } else {
        MemberRound::Fail
    }
}

/// Parses a whole serialized record, as [`parse_record`].
#[verifier::rlimit(100)]
#[verifier::spinoff_prover]
fn parse_record_exec(v: &Vec<char>) -> (r: Option<Asset>)
    ensures
        match r {
            Some(a) => parse_record(v@) == Some(a@),
            None => parse_record(v@) is None,
        },
{
    proof {
        assert(v@.skip(0) =~= v@);
    }
    let r0 = crate::json::ws_exec(v, 0);
    if r0 >= v.len() {
        return None;
    }
    proof {
        assert(v@.skip(r0 as int)[0] == v@[r0 as int]);
    }
    if v[r0] != '{' {
        return None;
    }
    proof {
        assert(v@.skip(r0 as int).drop_first() =~= v@.skip(r0 + 1));
    }
    let r1 = crate::json::ws_exec(v, r0 + 1);
    let mut partial = PartialAsset {
        kind_seen: false,
        name: None,
        archive: None,
        preview: None,
        size: None,
        thumbnail: None,
        stars: None,
        color: None,
        textures: None,
        meta: None,
    };
    let mut cur: usize = r1;
    let ghost mut fuel: nat = 11;
    proof {
        assert(partial@ == empty_partial());
        assert(taken_count(empty_partial()) == 0);
    }
    loop
        invariant
            cur <= v@.len(),
            1 <= fuel <= 11,
            fuel == 11 - taken_count(partial@),
            parse_members(v@.skip(r1 as int), empty_partial(), 11) == parse_members(
                v@.skip(cur as int),
                partial@,
                fuel,
            ),
            parse_record(v@) == finish_record(
                parse_members(v@.skip(r1 as int), empty_partial(), 11),
            ),
        decreases fuel,
    {
        let ghost p_old = partial@;
        match parse_member_round(v, cur, &mut partial) {
            MemberRound::Continue(j) => {
                proof {
                    assert(taken_count(partial@) <= 10);
                    fuel = (fuel - 1) as nat;
                }
                cur = j;
            },
            MemberRound::Done(j) => {
                proof {
                    assert(parse_members(v@.skip(cur as int), p_old, fuel) == Some(
                        (partial@, v@.skip(j as int)),
                    ));
                }
                let rn = crate::json::ws_exec(v, j);
                if rn != v.len() {
                    proof {
                        assert(v@.skip(rn as int).len() == v@.len() - rn);
                    }
                    return None;
                }
                proof {
                    assert(v@.skip(rn as int).len() == 0);
                }
                return complete_record(partial);
            },
            MemberRound::Fail => {
                return None;
            },
        }
    }
}

/// Reads a record from its sidecar text.  Succeeds exactly on the texts
/// that [`parse_record`] accepts — the schema's ten members, in any order,
/// each exactly once, numbers at the format's two-decimal precision;
/// anything else is a serialization error.
pub fn deserialize_asset(s: &str) -> (r: Result<Asset, ScannerError>)
    ensures
        match r {
            Ok(a) => parse_record(s@) == Some(a@),
            Err(e) => parse_record(s@) is None && e is Serialization,
        },
{
    let v = crate::text::string_to_chars(s);
    match parse_record_exec(&v) {
        Some(a) => Ok(a),
        None => Err(ScannerError::Serialization(String::from_str("malformed asset sidecar"))),
    }
}

/// The serialized items of a non-empty string array, closing bracket
/// included.
pub open spec fn emit_str_array_items(m: Seq<Seq<char>>) -> Seq<char>
    recommends
        m.len() > 0,
    decreases m.len(),
{
    if m.len() <= 1 {
        emit_string(m[0]) + seq![']']
    } else {
        emit_string(m[0]) + seq![',', ' '] + emit_str_array_items(m.drop_first())
    }
}

/// A serialized JSON array of strings.
pub open spec fn emit_str_array(m: Seq<Seq<char>>) -> Seq<char> {
    if m.len() == 0 {
        seq!['[', ']']
    } else {
        seq!['['] + emit_str_array_items(m)
    }
}

/// The serialized unpaired-files report: the two sorted name lists and
/// their counts, one member per line.
pub open spec fn emit_unpaired(u: UnpairedFilesView) -> Seq<char> {
    seq!['{', '\n'] + (member_prefix("unpaired_archives"@) + (emit_str_array(u.archives) + (
    comma_nl() + (member_prefix("unpaired_images"@) + (emit_str_array(u.images) + (comma_nl() + (
    member_prefix("total_unpaired_archives"@) + (emit_u64(u.total_archives) + (comma_nl() + (
    member_prefix("total_unpaired_images"@) + (emit_u64(u.total_images) + seq!['\n', '}'])))))))))))
}

/// Emits a string array.
fn emit_str_array_chars(out: &mut Vec<char>, m: &Vec<String>)
    ensures
        final(out)@ == old(out)@ + emit_str_array(m.deep_view()),
{
    let ghost mv = m.deep_view();
    out.push('[');
    let n: usize = m.len();
    if n == 0 {
        out.push(']');
        assert(out@ =~= old(out)@ + emit_str_array(mv));
        return ;
    }
    let mut i: usize = 0;
    proof {
        assert(mv.skip(0) =~= mv);
        assert(out@ + emit_str_array_items(mv) =~= old(out)@ + emit_str_array(mv));
    }
    while i < n
        invariant
            n == m@.len(),
            n > 0,
            i <= n,
            mv == m.deep_view(),
            i < n ==> out@ + emit_str_array_items(mv.skip(i as int)) == old(out)@ + emit_str_array(
                mv,
            ),
            i == n ==> out@ == old(out)@ + emit_str_array(mv),
        decreases n - i,
    {
        let ghost before = out@;
        let ghost rest = mv.skip(i as int);
        crate::json::emit_string_chars(out, m[i].as_str());
        proof {
            assert(rest[0] == mv[i as int]);
            assert(mv[i as int] == m@[i as int]@);
        }
        if i + 1 < n {
            out.push(',');
            out.push(' ');
            proof {
                assert(rest.drop_first() =~= mv.skip(i + 1));
                assert(emit_str_array_items(rest) =~= emit_string(rest[0]) + seq![',', ' ']
                    + emit_str_array_items(mv.skip(i + 1)));
                assert(out@ + emit_str_array_items(mv.skip(i + 1)) =~= before
                    + emit_str_array_items(rest));
            }
        } else {
            out.push(']');
            proof {
                assert(emit_str_array_items(rest) =~= emit_string(rest[0]) + seq![']']);
                assert(out@ =~= before + emit_str_array_items(rest));
            }
        }
        i = i + 1;
    }
}

/// Serializes the unpaired-files report to its JSON text, exactly
/// [`emit_unpaired`] of its view.
#[verifier::rlimit(100)]
#[verifier::spinoff_prover]
pub fn serialize_unpaired_files(u: &UnpairedFiles) -> (r: String)
    ensures
        r@ == emit_unpaired(u@),
{
    let mut out: Vec<char> = Vec::new();
    out.push('{');
    out.push('\n');
    emit_member_prefix(&mut out, "unpaired_archives");
    emit_str_array_chars(&mut out, &u.archives);
    emit_comma_nl(&mut out);
    emit_member_prefix(&mut out, "unpaired_images");
    emit_str_array_chars(&mut out, &u.images);
    emit_comma_nl(&mut out);
    emit_member_prefix(&mut out, "total_unpaired_archives");
    crate::json::emit_u64_chars(&mut out, u.total_archives as u64);
    emit_comma_nl(&mut out);
    emit_member_prefix(&mut out, "total_unpaired_images");
    crate::json::emit_u64_chars(&mut out, u.total_images as u64);
    out.push('\n');
    out.push('}');
    assert(out@ =~= emit_unpaired(u@));
    crate::text::chars_to_string(&out)
}

} // verus!
