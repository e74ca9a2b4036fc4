//! The baseline entry recorded for a finding: its report path, a hash of the normalized
//! source around it, a fingerprint from its rule and semantic key, and the set of keys
//! by which a later scan can recognise it after it moved or changed.
use vstd::prelude::*;

use crate::baseline::{BaselineEntry, BaselineLocation};
use crate::config::{entry_views, insert_entry, insert_entry_exec, text_views};
use crate::findings::{slice_source, Finding, FindingLocation, MetadataValue};
use crate::hashing::{sha256_hex, spec_hex, spec_sha256};
use crate::integrations::{normalize_path, spec_normalize_path};
use crate::normalize::{lines_of, normalize_source, spec_lines, spec_normalize};
use crate::text::{chars_of, join_chars, spec_join, spec_replace_char, string_from_chars, views};
use crate::utf8_facts::range_chars;
use vstd::string::StringSliceAdditionalSpecFns;
use vstd::utf8::{encode_utf8, is_char_boundary};

verus! {

broadcast use {vstd::utf8::encode_utf8_decode_utf8, vstd::std_specs::vec::group_vec_axioms};

/// The value under `key`: the last entry with that key, as a map filled in order keeps it.
pub open spec fn metadata_get(m: Seq<(String, MetadataValue)>, key: Seq<char>) -> Option<MetadataValue>
    decreases m.len(),
{
    if m.len() == 0 {
        None
    } else if m.last().0@ == key {
        Some(m.last().1)
    } else {
        metadata_get(m.drop_last(), key)
    }
}

/// The text under `key`, when the value there is a text.
pub open spec fn metadata_text(m: Seq<(String, MetadataValue)>, key: Seq<char>) -> Option<Seq<char>> {
    match metadata_get(m, key) {
        Some(MetadataValue::Text(s)) => Some(s@),
        _ => None,
    }
}

/// The texts under `key`, when the value there is a list of texts; else none.
pub open spec fn metadata_texts(m: Seq<(String, MetadataValue)>, key: Seq<char>) -> Seq<Seq<char>> {
    match metadata_get(m, key) {
        Some(MetadataValue::TextList(v)) => text_views(v@),
        _ => seq![],
    }
}

fn str_is(a: &str, b: &str) -> (r: bool)
    ensures
        r == (a@ == b@),
{
    crate::text::chars_eq(chars_of(a).as_slice(), chars_of(b).as_slice())
}

pub(crate) fn metadata_lookup<'a>(m: &'a Vec<(String, MetadataValue)>, key: &str) -> (r: Option<&'a MetadataValue>)
    ensures
        match r {
            Some(v) => metadata_get(m@, key@) == Some(*v),
            None => metadata_get(m@, key@) is None,
        },
{
    let mut n = m.len();
    assert(m@.take(n as int) =~= m@);
    while n > 0
        invariant
            n <= m@.len(),
            metadata_get(m@.take(n as int), key@) == metadata_get(m@, key@),
        decreases n,
    {
        assert(m@.take(n as int).drop_last() =~= m@.take(n - 1));
        if str_is(m[n - 1].0.as_str(), key) {
            return Some(&m[n - 1].1);
        }
        n = n - 1;
    }
    None
}

pub(crate) fn metadata_text_exec(m: &Vec<(String, MetadataValue)>, key: &str) -> (r: Option<String>)
    ensures
        match r {
            Some(s) => metadata_text(m@, key@) == Some(s@),
            None => metadata_text(m@, key@) is None,
        },
{
    match metadata_lookup(m, key) {
        Some(MetadataValue::Text(s)) => Some(s.clone()),
        _ => None,
    }
}

pub(crate) fn metadata_texts_exec(m: &Vec<(String, MetadataValue)>, key: &str) -> (r: Vec<String>)
    ensures
        text_views(r@) == metadata_texts(m@, key@),
{
    match metadata_lookup(m, key) {
        Some(MetadataValue::TextList(v)) => {
            let mut out: Vec<String> = Vec::new();
            for i in 0..v.len()
                invariant
                    text_views(out@) == text_views(v@).take(i as int),
            {
                let ghost before = out@;
                let item = v[i].clone();
                assert(item@ == v@[i as int]@);
                out.push(item);
                assert(out@ == before.push(item));
                assert(text_views(out@) =~= text_views(before).push(item@));
                assert(text_views(out@) =~= text_views(v@).take(i + 1));
            }
            assert(text_views(v@).take(v@.len() as int) =~= text_views(v@));
            out
        },
        _ => Vec::new(),
    }
}

/// The content hash a finding carries, by the first of the metadata names that holds a
/// text: semantic, canonical, vector group, near group, normalized body, normalized file.
pub open spec fn content_hash(m: Seq<(String, MetadataValue)>) -> Option<Seq<char>> {
    if metadata_text(m, "semantic_hash"@) is Some {
        metadata_text(m, "semantic_hash"@)
    } else if metadata_text(m, "canonical_hash"@) is Some {
        metadata_text(m, "canonical_hash"@)
    } else if metadata_text(m, "vector_group_hash"@) is Some {
        metadata_text(m, "vector_group_hash"@)
    } else if metadata_text(m, "near_group_hash"@) is Some {
        metadata_text(m, "near_group_hash"@)
    } else if metadata_text(m, "normalized_body_hash"@) is Some {
        metadata_text(m, "normalized_body_hash"@)
    } else {
        metadata_text(m, "normalized_file_hash"@)
    }
}

fn content_hash_exec(m: &Vec<(String, MetadataValue)>) -> (r: Option<String>)
    ensures
        match r {
            Some(s) => content_hash(m@) == Some(s@),
            None => content_hash(m@) is None,
        },
{
    match metadata_text_exec(m, "semantic_hash") {
        Some(v) => {
            return Some(v);
        },
        None => {},
    }
    match metadata_text_exec(m, "canonical_hash") {
        Some(v) => {
            return Some(v);
        },
        None => {},
    }
    match metadata_text_exec(m, "vector_group_hash") {
        Some(v) => {
            return Some(v);
        },
        None => {},
    }
    match metadata_text_exec(m, "near_group_hash") {
        Some(v) => {
            return Some(v);
        },
        None => {},
    }
    match metadata_text_exec(m, "normalized_body_hash") {
        Some(v) => {
            return Some(v);
        },
        None => {},
    }
    metadata_text_exec(m, "normalized_file_hash")
}

/// The source text around a location: the bytes of its span when they lie on character
/// boundaries inside the source, else (for a location with a start but no span) the
/// lines from three before the start line to three after it, joined by line feeds.
pub open spec fn context_text(location: FindingLocation, source: Seq<char>) -> Seq<char> {
    match location.span {
        Some(span) => {
            let bytes = encode_utf8(source);
            if span.end <= bytes.len() && is_char_boundary(bytes, span.start as int) && is_char_boundary(
                bytes,
                span.end as int,
            ) {
                range_chars(bytes, span.start as int, span.end as int)
            } else {
                seq![]
            }
        },
        None => match location.start {
            Some(start) => {
                let lines = spec_lines(source);
                let skip = if start.line >= 4 {
                    start.line - 4
                } else {
                    0
                };
                let from = if skip <= lines.len() {
                    skip as int
                } else {
                    lines.len() as int
                };
                let to = if from + 7 <= lines.len() {
                    from + 7
                } else {
                    lines.len() as int
                };
                spec_join(lines.subrange(from, to), seq!['\n'])
            },
            None => seq![],
        },
    }
}

/// The hash of the normalized context of a location: none when the source could not be
/// read or the normalized context is empty.
pub open spec fn spec_context_hash(location: FindingLocation, source: Option<Seq<char>>) -> Option<Seq<char>> {
    match source {
        None => None,
        Some(text) => {
            let normalized = spec_normalize(context_text(location, text));
            if normalized.len() == 0 {
                None
            } else {
                Some(spec_hex(spec_sha256(encode_utf8(normalized))))
            }
        },
    }
}

fn context_of(location: &FindingLocation, source: &str) -> (r: String)
    requires
        location.span matches Some(span) ==> span.start <= span.end,
    ensures
        r@ == context_text(*location, source@),
{
    match location.span {
        Some(span) => match slice_source(source, span) {
            Ok(text) => {
                proof {
                    assert(source.spec_bytes() == encode_utf8(source@));
                    vstd::utf8::encode_utf8_decode_utf8(text@);
                }
                String::from_str(text)
            },
            Err(_) => String::new(),
        },
        None => match location.start {
            Some(start) => {
                let chars = chars_of(source);
                let lines = lines_of(&chars);
                let skip: usize = if start.line >= 4 {
                    start.line - 4
                } else {
                    0
                };
                let from: usize = if skip <= lines.len() {
                    skip
                } else {
                    lines.len()
                };
                let to: usize = if lines.len() - from >= 7 {
                    from + 7
                } else {
                    lines.len()
                };
                let mut picked: Vec<Vec<char>> = Vec::new();
                for i in from..to
                    invariant
                        from <= to <= lines@.len(),
                        views(picked@) == views(lines@).subrange(from as int, i as int),
                {
                    let line = crate::text::slice_chars(lines[i].as_slice(), 0, lines[i].len());
                    assert(line@ =~= lines@[i as int]@);
                    let ghost before = picked@;
                    picked.push(line);
                    assert(picked@ == before.push(line));
                    assert(views(picked@) =~= views(before).push(line@));
                    assert(views(picked@) =~= views(lines@).subrange(from as int, i + 1));
                }
                let newline: Vec<char> = vec!['\n'];
                assert(newline@ =~= seq!['\n']);
                let joined = join_chars(&picked, newline.as_slice());
                string_from_chars(joined.as_slice())
            },
            None => String::new(),
        },
    }
}

/// The text an optional string holds.
pub open spec fn opt_view(o: Option<String>) -> Option<Seq<char>> {
    match o {
        Some(s) => Some(s@),
        None => None,
    }
}

/// The hash of the normalized source context of a location; `source` is the text of
/// the location's file, `None` when it could not be read.
pub fn context_hash(location: &FindingLocation, source: &Option<String>) -> (r: Option<String>)
    requires
        location.span matches Some(span) ==> span.start <= span.end,
    ensures
        match r {
            Some(h) => spec_context_hash(*location, opt_view(*source)) == Some(h@),
            None => spec_context_hash(*location, opt_view(*source)) is None,
        },
{
    match source {
        None => None,
        Some(text) => {
            let context = context_of(location, text.as_str());
            let normalized = normalize_source(context.as_str());
            if chars_of(normalized.as_str()).len() == 0 {
                None
            } else {
                Some(sha256_hex(normalized.as_str()))
            }
        },
    }
}


fn cat2(a: &str, b: &str) -> (r: String)
    ensures
        r@ == a@ + b@,
{
    let mut s = String::from_str(a);
    s.append(b);
    s
}

fn cat3(a: &str, b: &str, c: &str) -> (r: String)
    ensures
        r@ == a@ + b@ + c@,
{
    let ab = cat2(a, b);
    cat2(ab.as_str(), c)
}

/// The key that says what a finding is about: its content hash, else its route, else
/// its baseline key together with the hash of its context.
pub open spec fn spec_semantic_key(m: Seq<(String, MetadataValue)>, baseline_key: Seq<char>, context: Seq<char>) -> Seq<char> {
    match content_hash(m) {
        Some(v) => "content:"@ + v,
        None => match metadata_text(m, "route"@) {
            Some(r) => "route:"@ + r,
            None => "legacy:"@ + baseline_key + "|context:"@ + context,
        },
    }
}

/// The semantic key of a finding whose primary context hash is `context`.
pub fn semantic_key(finding: &Finding, context: &str) -> (r: String)
    ensures
        r@ == spec_semantic_key(finding.metadata@, finding.baseline_key@, context@),
{
    match content_hash_exec(&finding.metadata) {
        Some(v) => cat2("content:", v.as_str()),
        None => match metadata_text_exec(&finding.metadata, "route") {
            Some(r) => cat2("route:", r.as_str()),
            None => {
                let head = cat3("legacy:", finding.baseline_key.as_str(), "|context:");
                cat2(head.as_str(), context)
            },
        },
    }
}

/// A baseline location describes a finding location: its report path under `root`,
/// that path with forward slashes, its start line and column, and its context hash.
pub open spec fn describes_location(l: BaselineLocation, root: Seq<char>, location: FindingLocation, source: Option<Seq<char>>) -> bool {
    let path = spec_normalize_path(root, location.path@);
    &&& l.path@ == path
    &&& l.normalized_path@ == spec_replace_char(path, '\\', '/')
    &&& l.line == (match location.start {
        Some(s) => Some(s.line),
        None => None,
    })
    &&& l.column == (match location.start {
        Some(s) => Some(s.column),
        None => None,
    })
    &&& opt_view(l.context_hash) == spec_context_hash(location, source)
}

/// The baseline form of a finding location; `source` is its file's text, if read.
pub fn baseline_location(root: &str, location: &FindingLocation, source: &Option<String>) -> (r: BaselineLocation)
    requires
        location.span matches Some(span) ==> span.start <= span.end,
    ensures
        describes_location(r, root@, *location, opt_view(*source)),
{
    let root_chars = chars_of(root);
    let path_chars = chars_of(location.path.as_str());
    let path = normalize_path(root_chars.as_slice(), path_chars.as_slice());
    let normalized = crate::text::replace_char(path.as_slice(), '\\', '/');
    let (line, column) = match location.start {
        Some(s) => (Some(s.line), Some(s.column)),
        None => (None, None),
    };
    BaselineLocation {
        path: string_from_chars(path.as_slice()),
        normalized_path: string_from_chars(normalized.as_slice()),
        line,
        column,
        context_hash: context_hash(location, source),
    }
}

/// The context hashes that the locations hold, in order.
pub open spec fn present_hashes(ls: Seq<BaselineLocation>) -> Seq<Seq<char>>
    decreases ls.len(),
{
    if ls.len() == 0 {
        seq![]
    } else {
        let earlier = present_hashes(ls.drop_last());
        match ls.last().context_hash {
            Some(h) => earlier.push(h@),
            None => earlier,
        }
    }
}

/// The keys by which a finding can be recognised again, in the order they are made:
/// its fingerprint, its baseline key, its rule with its context, its rule with its
/// path and context, its rule with its content hash and with its route when it has them,
/// its rule with each qualified name, and its rule with the context hashes of all its
/// locations when any is known.
pub open spec fn key_candidates(
    rule: Seq<char>,
    baseline_key: Seq<char>,
    fingerprint: Seq<char>,
    context: Seq<char>,
    path: Seq<char>,
    m: Seq<(String, MetadataValue)>,
    related: Seq<BaselineLocation>,
) -> Seq<Seq<char>> {
    let group = spec_join(present_hashes(related), seq!['|']);
    seq![
        "fingerprint:"@ + fingerprint,
        "legacy:"@ + baseline_key,
        rule + "|context:"@ + context,
        rule + "|path:"@ + spec_replace_char(path, '\\', '/') + "|context:"@ + context,
    ] + match content_hash(m) {
        Some(v) => seq![rule + "|content:"@ + v],
        None => seq![],
    } + match metadata_text(m, "route"@) {
        Some(r) => seq![rule + "|route:"@ + r],
        None => seq![],
    } + metadata_texts(m, "qualified_names"@).map_values(|n: Seq<char>| rule + "|qualified:"@ + n) + if group.len()
        > 0 {
        seq![rule + "|group:"@ + group]
    } else {
        seq![]
    }
}

/// The distinct keys, in key order.
pub open spec fn key_set(keys: Seq<Seq<char>>) -> Seq<(Seq<char>, ())>
    decreases keys.len(),
{
    if keys.len() == 0 {
        seq![]
    } else {
        insert_entry(key_set(keys.drop_last()), keys.last(), ())
    }
}

/// The distinct texts of `keys` in key order, as a `BTreeSet` yields them.
pub fn sorted_distinct(keys: &Vec<String>) -> (r: Vec<String>)
    ensures
        r@.map_values(|k: String| (k@, ())) == key_set(text_views(keys@)),
{
    let mut set: Vec<(String, ())> = Vec::new();
    for i in 0..keys.len()
        invariant
            entry_views(set@) == key_set(text_views(keys@).take(i as int)),
    {
        insert_entry_exec(&mut set, keys[i].clone(), ());
        assert(text_views(keys@).take(i + 1).drop_last() =~= text_views(keys@).take(i as int));
    }
    assert(text_views(keys@).take(keys@.len() as int) =~= text_views(keys@));
    let mut out: Vec<String> = Vec::new();
    for i in 0..set.len()
        invariant
            out@.map_values(|k: String| (k@, ())) == entry_views(set@).take(i as int),
    {
        let ghost before = out@;
        let key = set[i].0.clone();
        assert(key@ == set@[i as int].0@);
        out.push(key);
        assert(out@ == before.push(key));
        assert(entry_views(set@)[i as int] == (key@, ()));
        assert(out@.map_values(|k: String| (k@, ())) =~= before.map_values(|k: String| (k@, ())).push((key@, ())));
        assert(out@.map_values(|k: String| (k@, ())) =~= entry_views(set@).take(i + 1));
    }
    assert(entry_views(set@).take(set@.len() as int) =~= entry_views(set@));
    out
}

fn group_key(related: &Vec<BaselineLocation>) -> (r: String)
    ensures
        r@ == spec_join(present_hashes(related@), seq!['|']),
{
    let mut parts: Vec<Vec<char>> = Vec::new();
    for i in 0..related.len()
        invariant
            views(parts@) == present_hashes(related@.take(i as int)),
    {
        assert(related@.take(i + 1).drop_last() =~= related@.take(i as int));
        match &related[i].context_hash {
            Some(h) => {
                let ghost before = parts@;
                parts.push(chars_of(h.as_str()));
                assert(views(parts@) =~= views(before).push(h@));
            },
            None => {},
        }
    }
    assert(related@.take(related@.len() as int) =~= related@);
    let bar: Vec<char> = vec!['|'];
    assert(bar@ =~= seq!['|']);
    string_from_chars(join_chars(&parts, bar.as_slice()).as_slice())
}

fn push_text(out: &mut Vec<String>, s: String)
    ensures
        text_views(final(out)@) == text_views(old(out)@).push(s@),
{
    let ghost before = out@;
    out.push(s);
    assert(out@ == before.push(s));
    assert(text_views(out@) =~= text_views(before).push(s@));
}

/// The keys by which a finding can be recognised again, distinct and in key order.
pub fn matching_keys(finding: &Finding, fingerprint: &str, context: &str, path: &str, related: &Vec<BaselineLocation>) -> (r: Vec<String>)
    ensures
        r@.map_values(|k: String| (k@, ())) == key_set(
            key_candidates(
                finding.rule_id@,
                finding.baseline_key@,
                fingerprint@,
                context@,
                path@,
                finding.metadata@,
                related@,
            ),
        ),
{
    let rule = finding.rule_id.as_str();
    let mut keys: Vec<String> = Vec::new();
    push_text(&mut keys, cat2("fingerprint:", fingerprint));
    push_text(&mut keys, cat2("legacy:", finding.baseline_key.as_str()));
    push_text(&mut keys, cat3(rule, "|context:", context));
    let slashed = string_from_chars(crate::text::replace_char(chars_of(path).as_slice(), '\\', '/').as_slice());
    let head = cat3(rule, "|path:", slashed.as_str());
    push_text(&mut keys, cat3(head.as_str(), "|context:", context));
    let ghost fixed = text_views(keys@);
    match content_hash_exec(&finding.metadata) {
        Some(v) => push_text(&mut keys, cat3(rule, "|content:", v.as_str())),
        None => {},
    }
    let ghost with_content = text_views(keys@);
    match metadata_text_exec(&finding.metadata, "route") {
        Some(r) => push_text(&mut keys, cat3(rule, "|route:", r.as_str())),
        None => {},
    }
    let ghost with_route = text_views(keys@);
    let names = metadata_texts_exec(&finding.metadata, "qualified_names");
    let ghost qualified = text_views(names@).map_values(|n: Seq<char>| finding.rule_id@ + "|qualified:"@ + n);
    for i in 0..names.len()
        invariant
            text_views(keys@) == with_route + qualified.take(i as int),
            qualified == text_views(names@).map_values(|n: Seq<char>| finding.rule_id@ + "|qualified:"@ + n),
            rule@ == finding.rule_id@,
    {
        push_text(&mut keys, cat3(rule, "|qualified:", names[i].as_str()));
        assert(qualified.take(i + 1) =~= qualified.take(i as int).push(qualified[i as int]));
    }
    assert(qualified.take(names@.len() as int) =~= qualified);
    let ghost with_names = text_views(keys@);
    let group = group_key(related);
    if chars_of(group.as_str()).len() > 0 {
        push_text(&mut keys, cat3(rule, "|group:", group.as_str()));
    }
    assert(text_views(keys@) =~= key_candidates(
        finding.rule_id@,
        finding.baseline_key@,
        fingerprint@,
        context@,
        path@,
        finding.metadata@,
        related@,
    ));
    sorted_distinct(&keys)
}


/// Every span of the locations starts no later than it ends.
pub open spec fn spans_ordered(locations: Seq<FindingLocation>) -> bool {
    forall|i: int| 0 <= i < locations.len() ==> ((#[trigger] locations[i]).span matches Some(span) ==> span.start <= span.end)
}

/// The texts of the source files, each `None` when its file could not be read.
pub open spec fn source_views(sources: Seq<Option<String>>) -> Seq<Option<Seq<char>>> {
    sources.map_values(|o: Option<String>| opt_view(o))
}

/// The report path of a finding: that of its first location, or empty.
pub open spec fn primary_path(root: Seq<char>, finding: Finding) -> Seq<char> {
    if finding.locations@.len() > 0 {
        spec_normalize_path(root, finding.locations@[0].path@)
    } else {
        seq![]
    }
}

/// The context hash of a finding's first location, or `unknown`.
pub open spec fn primary_context(finding: Finding, sources: Seq<Option<Seq<char>>>) -> Seq<char> {
    if finding.locations@.len() > 0 {
        match spec_context_hash(finding.locations@[0], sources[0]) {
            Some(h) => h,
            None => "unknown"@,
        }
    } else {
        "unknown"@
    }
}

/// The fingerprint of a finding: the SHA-256 hex of its rule id, a bar and its semantic key.
pub open spec fn spec_fingerprint(finding: Finding, context: Seq<char>) -> Seq<char> {
    spec_hex(
        spec_sha256(
            encode_utf8(finding.rule_id@ + "|"@ + spec_semantic_key(finding.metadata@, finding.baseline_key@, context)),
        ),
    )
}

/// The owner recorded for new entries: the given one unless it is empty.
pub open spec fn recorded_owner(owner: Option<Seq<char>>) -> Option<Seq<char>> {
    match owner {
        Some(o) => if o.len() > 0 {
            Some(o)
        } else {
            None
        },
        None => None,
    }
}

/// `e` is the baseline entry of `finding`, scanned under `root`, with the given file
/// texts, owner and first-seen time.
pub open spec fn describes_entry(
    e: BaselineEntry,
    root: Seq<char>,
    finding: Finding,
    sources: Seq<Option<Seq<char>>>,
    owner: Option<Seq<char>>,
    first_seen: u64,
) -> bool {
    let path = primary_path(root, finding);
    let context = primary_context(finding, sources);
    let fingerprint = spec_fingerprint(finding, context);
    &&& e.fingerprint@ == fingerprint
    &&& e.baseline_key@ == finding.baseline_key@
    &&& e.rule_id@ == finding.rule_id@
    &&& e.path@ == path
    &&& e.normalized_path@ == spec_replace_char(path, '\\', '/')
    &&& e.normalized_source_context_hash@ == context
    &&& e.related_locations@.len() == finding.locations@.len()
    &&& forall|i: int|
        0 <= i < finding.locations@.len() ==> describes_location(
            #[trigger] e.related_locations@[i],
            root,
            finding.locations@[i],
            sources[i],
        )
    &&& e.first_seen == first_seen
    &&& opt_view(e.owner) == recorded_owner(owner)
    &&& e.severity@ == finding.severity.name_spec()
    &&& e.confidence@ == finding.confidence.label_spec()
    &&& e.message@ == finding.message@
    &&& e.matching_keys@.map_values(|k: String| (k@, ())) == key_set(
        key_candidates(
            finding.rule_id@,
            finding.baseline_key@,
            fingerprint,
            context,
            path,
            finding.metadata@,
            e.related_locations@,
        ),
    )
}

/// The baseline entry of a finding. `sources[i]` is the text of the file of the
/// finding's location `i`, `None` when it could not be read.
pub fn entry_for_finding(
    root: &str,
    finding: &Finding,
    sources: &Vec<Option<String>>,
    owner: &Option<String>,
    first_seen: u64,
) -> (r: BaselineEntry)
    requires
        sources@.len() == finding.locations@.len(),
        spans_ordered(finding.locations@),
    ensures
        describes_entry(r, root@, *finding, source_views(sources@), opt_view(*owner), first_seen),
{
    let ghost srcs = source_views(sources@);
    let root_chars = chars_of(root);
    let (path, context) = if finding.locations.len() > 0 {
        let location = &finding.locations[0];
        assert(finding.locations@[0] == *location);
        let path_chars = chars_of(location.path.as_str());
        let p = string_from_chars(normalize_path(root_chars.as_slice(), path_chars.as_slice()).as_slice());
        let c = match context_hash(location, &sources[0]) {
            Some(h) => h,
            None => String::from_str("unknown"),
        };
        assert(srcs[0] == opt_view(sources@[0]));
        (p, c)
    } else {
        (String::new(), String::from_str("unknown"))
    };
    proof {
        reveal_strlit("unknown");
    }
    assert(path@ == primary_path(root@, *finding));
    assert(context@ == primary_context(*finding, srcs));
    let normalized_path = string_from_chars(crate::text::replace_char(chars_of(path.as_str()).as_slice(), '\\', '/').as_slice());
    let mut related: Vec<BaselineLocation> = Vec::new();
    for i in 0..finding.locations.len()
        invariant
            sources@.len() == finding.locations@.len(),
            spans_ordered(finding.locations@),
            srcs == source_views(sources@),
            related@.len() == i,
            forall|j: int|
                0 <= j < i ==> describes_location(#[trigger] related@[j], root@, finding.locations@[j], srcs[j]),
    {
        assert(finding.locations@[i as int] == finding.locations[i as int]);
        related.push(baseline_location(root, &finding.locations[i], &sources[i]));
    }
    let semantic = semantic_key(finding, context.as_str());
    let keyed = cat3(finding.rule_id.as_str(), "|", semantic.as_str());
    let fingerprint = sha256_hex(keyed.as_str());
    let matching = matching_keys(finding, fingerprint.as_str(), context.as_str(), path.as_str(), &related);
    let recorded = match owner {
        Some(o) => if chars_of(o.as_str()).len() > 0 {
            Some(o.clone())
        } else {
            None
        },
        None => None,
    };
    BaselineEntry {
        fingerprint,
        baseline_key: finding.baseline_key.clone(),
        rule_id: finding.rule_id.clone(),
        path,
        normalized_path,
        normalized_source_context_hash: context,
        related_locations: related,
        first_seen,
        owner: recorded,
        severity: String::from_str(finding.severity.name()),
        confidence: String::from_str(finding.confidence.label()),
        message: finding.message.clone(),
        matching_keys: matching,
    }
}

} // verus!
