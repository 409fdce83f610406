//! Percent-encoding of vault target paths.
//!
//! A user-supplied target is split on `/`, each segment is
//! percent-encoded on its own (so a literal `/` inside a note name can
//! never introduce an extra path level), and the segments are rejoined
//! under the `/vault/` route. Decoding is the inverse, used for display.

use vstd::prelude::*;

verus! {

/// The characters produced by `urlencoding::encode` for the segment `s`:
/// every byte of the UTF-8 form of `s` except ASCII alphanumerics and
/// `-`, `.`, `_`, `~` is written as `%` followed by two upper-case hex
/// digits. The exact character sequence is a function of `s` alone.
pub uninterp spec fn url_encoded(s: Seq<char>) -> Seq<char>;

/// The outcome of `urlencoding::decode` on `s`: each valid `%XX` triple
/// becomes the byte `XX`, every other character passes through, and the
/// result is `None` exactly when the resulting bytes are not UTF-8.
pub uninterp spec fn url_decoded(s: Seq<char>) -> Option<Seq<char>>;

/// Relies on `urlencoding::encode`: percent-encodes every byte except
/// ASCII alphanumerics and `-`, `.`, `_`, `~`, writing `%` plus two hex
/// digits for each escaped byte. Hence the result never contains `/`,
/// a result without `%` escaped nothing and equals the input, and
/// `urlencoding::decode` recovers the input exactly.
#[verifier::external_body]
fn encode_component(s: &str) -> (r: String)
    ensures
        r@ == url_encoded(s@),
        !r@.contains('/'),
        !r@.contains('%') ==> r@ == s@,
        url_decoded(r@) == Some(s@),
{
    urlencoding::encode(s).into_owned()
}

/// Relies on `urlencoding::decode`: replaces each valid `%XX` triple by
/// its byte and leaves every other character unchanged; it fails only
/// when the decoded bytes are not UTF-8, so an input without `%` comes
/// back unchanged.
#[verifier::external_body]
fn decode_component(s: &str) -> (r: Option<String>)
    ensures
        r is Some <==> url_decoded(s@) is Some,
        r is None ==> s@.contains('%'),
        r matches Some(d) ==> url_decoded(s@) == Some(d@) && (!s@.contains('%') ==> d@ == s@),
{
    match urlencoding::decode(s) {
        Ok(c) => Some(c.into_owned()),
        Err(_) => None,
    }
}

/// The segments of `s` delimited by `/`: one more segment than there
/// are slashes, in order, each slash-free.
pub open spec fn split_slash(s: Seq<char>) -> Seq<Seq<char>>
    decreases s.len(),
{
    if s.len() == 0 {
        seq![Seq::<char>::empty()]
    } else if s[0] == '/' {
        seq![Seq::<char>::empty()] + split_slash(s.drop_first())
    } else {
        let rest = split_slash(s.drop_first());
        seq![seq![s[0]] + rest[0]] + rest.drop_first()
    }
}

/// The segments of `segs` joined by a single `/` between neighbours.
pub open spec fn join_slash(segs: Seq<Seq<char>>) -> Seq<char>
    decreases segs.len(),
{
    if segs.len() == 0 {
        Seq::<char>::empty()
    } else if segs.len() == 1 {
        segs[0]
    } else {
        segs[0] + seq!['/'] + join_slash(segs.drop_first())
    }
}

/// A split always yields at least one segment.
pub proof fn lemma_split_len(s: Seq<char>)
    ensures
        split_slash(s).len() >= 1,
    decreases s.len(),
{
    if s.len() == 0 {
    } else if s[0] == '/' {
    } else {
        lemma_split_len(s.drop_first());
    }
}

/// Splitting at a separator splits each side on its own.
pub proof fn lemma_split_concat(a: Seq<char>, b: Seq<char>)
    ensures
        split_slash(a + seq!['/'] + b) == split_slash(a) + split_slash(b),
    decreases a.len(),
{
    let s = a + seq!['/'] + b;
    if a.len() == 0 {
        assert(s =~= seq!['/'] + b);
        assert(s[0] == '/');
        assert(s.drop_first() =~= b);
        assert(split_slash(s) =~~= split_slash(a) + split_slash(b));
    } else if a[0] == '/' {
        assert(s[0] == '/');
        assert(s.drop_first() =~= a.drop_first() + seq!['/'] + b);
        lemma_split_concat(a.drop_first(), b);
        assert(split_slash(s) =~~= split_slash(a) + split_slash(b));
    } else {
        assert(s[0] == a[0]);
        assert(s.drop_first() =~= a.drop_first() + seq!['/'] + b);
        lemma_split_concat(a.drop_first(), b);
        lemma_split_len(a.drop_first());
        lemma_split_len(b);
        let ra = split_slash(a.drop_first());
        let rest = split_slash(s.drop_first());
        assert(rest == ra + split_slash(b));
        assert(rest[0] == ra[0]);
        assert(rest.drop_first() =~~= ra.drop_first() + split_slash(b));
        assert(split_slash(s) =~~= split_slash(a) + split_slash(b));
    }
}

/// A slash-free string is a single segment.
pub proof fn lemma_split_no_slash(s: Seq<char>)
    requires
        !s.contains('/'),
    ensures
        split_slash(s) == seq![s],
    decreases s.len(),
{
    if s.len() == 0 {
        assert(split_slash(s) =~~= seq![s]);
    } else {
        assert(s[0] != '/');
        assert(!s.drop_first().contains('/')) by {
            if s.drop_first().contains('/') {
                let j = choose|j: int|
                    0 <= j < s.drop_first().len() && s.drop_first()[j] == '/';
                assert(s[j + 1] == '/');
                assert(s.contains('/'));
            }
        }
        lemma_split_no_slash(s.drop_first());
        assert(split_slash(s) =~~= seq![s]);
    }
}

/// Joining the segments of a string reproduces the string.
pub proof fn lemma_join_split(s: Seq<char>)
    ensures
        join_slash(split_slash(s)) == s,
    decreases s.len(),
{
    if s.len() == 0 {
    } else if s[0] == '/' {
        lemma_join_split(s.drop_first());
        lemma_split_len(s.drop_first());
        let rest = split_slash(s.drop_first());
        assert((seq![Seq::<char>::empty()] + rest).drop_first() =~~= rest);
        assert(join_slash(split_slash(s)) =~= s);
    } else {
        lemma_join_split(s.drop_first());
        lemma_split_len(s.drop_first());
        let rest = split_slash(s.drop_first());
        let segs = seq![seq![s[0]] + rest[0]] + rest.drop_first();
        assert(split_slash(s) == segs);
        if rest.len() == 1 {
            assert(segs.len() == 1);
            assert(join_slash(rest) == rest[0]);
            assert(join_slash(segs) =~= s);
        } else {
            assert(segs.len() >= 2);
            assert(segs.drop_first() =~~= rest.drop_first());
            assert(join_slash(segs) == segs[0] + seq!['/'] + join_slash(segs.drop_first()));
            assert(join_slash(rest) == rest[0] + seq!['/'] + join_slash(rest.drop_first()));
            assert(s =~= seq![s[0]] + s.drop_first());
            assert(join_slash(segs) =~= seq![s[0]] + join_slash(rest));
            assert(join_slash(segs) =~= s);
        }
    }
}

/// Splitting a join of slash-free segments gives the segments back.
pub proof fn lemma_split_join(segs: Seq<Seq<char>>)
    requires
        segs.len() >= 1,
        forall|i: int| 0 <= i < segs.len() ==> !(#[trigger] segs[i]).contains('/'),
    ensures
        split_slash(join_slash(segs)) == segs,
    decreases segs.len(),
{
    if segs.len() == 1 {
        lemma_split_no_slash(segs[0]);
        assert(split_slash(join_slash(segs)) =~~= segs);
    } else {
        lemma_split_join(segs.drop_first());
        lemma_split_concat(segs[0], join_slash(segs.drop_first()));
        lemma_split_no_slash(segs[0]);
        assert(join_slash(segs) == segs[0] + seq!['/'] + join_slash(segs.drop_first()));
        assert(split_slash(join_slash(segs)) =~~= segs);
    }
}

/// The views of a vector of strings, segment by segment.
pub open spec fn views_of(segs: Seq<String>) -> Seq<Seq<char>> {
    segs.map_values(|t: String| t@)
}

/// Every segment percent-encoded.
pub open spec fn enc_all(segs: Seq<Seq<char>>) -> Seq<Seq<char>> {
    segs.map_values(|s: Seq<char>| url_encoded(s))
}

/// Decoding one stored segment: the identity where nothing is escaped,
/// else whatever `urlencoding::decode` gives.
pub open spec fn dec_seg(s: Seq<char>) -> Option<Seq<char>> {
    if !s.contains('%') {
        Some(s)
    } else {
        url_decoded(s)
    }
}

pub open spec fn all_decodable(segs: Seq<Seq<char>>) -> bool {
    forall|i: int| 0 <= i < segs.len() ==> (#[trigger] dec_seg(segs[i])) is Some
}

/// Every segment decoded, where all of them decode.
pub open spec fn dec_all(segs: Seq<Seq<char>>) -> Seq<Seq<char>> {
    segs.map_values(|s: Seq<char>| dec_seg(s).unwrap())
}

/// The canonical encoded vault path for the raw target `t`: the
/// segments of `t`, each percent-encoded on its own, rejoined with `/`
/// under the `/vault/` route.
pub open spec fn encode_path_spec(t: Seq<char>) -> Seq<char> {
    "/vault/"@ + join_slash(enc_all(split_slash(t)))
}

/// Segment-wise decoding of a stored path, for display; `None` exactly
/// when some segment fails to decode.
pub open spec fn decode_path_spec(p: Seq<char>) -> Option<Seq<char>> {
    if all_decodable(split_slash(p)) {
        Some(join_slash(dec_all(split_slash(p))))
    } else {
        None
    }
}

/// Appending one more segment appends a separator and the segment.
pub proof fn lemma_join_push(segs: Seq<Seq<char>>, x: Seq<char>)
    requires
        segs.len() >= 1,
    ensures
        join_slash(segs.push(x)) == join_slash(segs) + seq!['/'] + x,
    decreases segs.len(),
{
    if segs.len() == 1 {
        assert(segs.push(x).drop_first() =~~= seq![x]);
        assert(join_slash(seq![x]) == x);
        assert(join_slash(segs.push(x)) == segs.push(x)[0] + seq!['/'] + join_slash(
            segs.push(x).drop_first(),
        ));
        assert(join_slash(segs.push(x)) == segs[0] + seq!['/'] + x);
    } else {
        lemma_join_push(segs.drop_first(), x);
        assert(segs.push(x).drop_first() =~~= segs.drop_first().push(x));
        assert(join_slash(segs.push(x)) =~= join_slash(segs) + seq!['/'] + x);
    }
}

fn split_on_slash(s: &str) -> (segs: Vec<String>)
    ensures
        views_of(segs@) == split_slash(s@),
        segs@.len() >= 1,
{
    let n: usize = s.unicode_len();
    let mut segs: Vec<String> = Vec::new();
    let mut start: usize = 0;
    let mut i: usize = 0;
    proof {
        assert(views_of(segs@) =~~= Seq::<Seq<char>>::empty());
        assert(s@.subrange(0, n as int) =~= s@);
        assert(Seq::<Seq<char>>::empty() + split_slash(s@) =~~= split_slash(s@));
    }
    while i < n
        invariant
            n == s@.len(),
            start <= i <= n,
            forall|j: int| start <= j < i ==> s@[j] != '/',
            split_slash(s@) == views_of(segs@) + split_slash(
                s@.subrange(start as int, n as int),
            ),
        decreases n - i,
    {
        if s.get_char(i) == '/' {
            let piece = s.substring_char(start, i).to_owned();
            proof {
                let head = s@.subrange(start as int, i as int);
                let tail = s@.subrange(i as int + 1, n as int);
                assert(s@.subrange(start as int, n as int) =~= head + seq!['/'] + tail);
                assert(!head.contains('/')) by {
                    if head.contains('/') {
                        let k = choose|k: int| 0 <= k < head.len() && head[k] == '/';
                        assert(s@[start + k] == '/');
                    }
                }
                lemma_split_concat(head, tail);
                lemma_split_no_slash(head);
                assert(views_of(segs@.push(piece)) =~~= views_of(segs@).push(piece@));
                assert(views_of(segs@).push(piece@) + split_slash(tail) =~~= views_of(segs@)
                    + split_slash(s@.subrange(start as int, n as int)));
            }
            segs.push(piece);
            start = i + 1;
        }
        i += 1;
    }
    let last = s.substring_char(start, n).to_owned();
    proof {
        let tail = s@.subrange(start as int, n as int);
        assert(!tail.contains('/')) by {
            if tail.contains('/') {
                let k = choose|k: int| 0 <= k < tail.len() && tail[k] == '/';
                assert(s@[start + k] == '/');
            }
        }
        lemma_split_no_slash(tail);
        assert(views_of(segs@.push(last)) =~~= views_of(segs@).push(last@));
        assert(views_of(segs@).push(last@) =~~= views_of(segs@) + seq![tail]);
    }
    segs.push(last);
    segs
}

fn join_with_slash(segs: &Vec<String>) -> (r: String)
    requires
        segs@.len() >= 1,
    ensures
        r@ == join_slash(views_of(segs@)),
{
    let mut r: String = segs[0].clone();
    let mut i: usize = 1;
    proof {
        assert(views_of(segs@).take(1) =~~= seq![segs@[0]@]);
    }
    while i < segs.len()
        invariant
            1 <= i <= segs@.len(),
            r@ == join_slash(views_of(segs@).take(i as int)),
        decreases segs@.len() - i,
    {
        proof {
            reveal_strlit("/");
            assert("/"@ =~= seq!['/']);
        }
        r.append("/");
        r.append(segs[i].as_str());
        proof {
            let vs = views_of(segs@);
            lemma_join_push(vs.take(i as int), vs[i as int]);
            assert(vs.take(i as int).push(vs[i as int]) =~~= vs.take(i as int + 1));
        }
        i += 1;
    }
    proof {
        assert(views_of(segs@).take(segs@.len() as int) =~~= views_of(segs@));
    }
    r
}

/// Splitting never introduces a character: a string free of `c` splits
/// into segments free of `c`.
proof fn lemma_split_preserves_free(s: Seq<char>, c: char)
    requires
        !s.contains(c),
        c != '/',
    ensures
        forall|i: int|
            0 <= i < split_slash(s).len() ==> !(#[trigger] split_slash(s)[i]).contains(c),
    decreases s.len(),
{
    assert(!Seq::<char>::empty().contains(c));
    if s.len() == 0 {
    } else {
        assert(s[0] != c);
        assert(!s.drop_first().contains(c)) by {
            if s.drop_first().contains(c) {
                let j = choose|j: int|
                    0 <= j < s.drop_first().len() && s.drop_first()[j] == c;
                assert(s[j + 1] == c);
                assert(s.contains(c));
            }
        }
        lemma_split_preserves_free(s.drop_first(), c);
        let rest = split_slash(s.drop_first());
        if s[0] == '/' {
            assert forall|i: int|
                0 <= i < split_slash(s).len() implies !(#[trigger] split_slash(
                s,
            )[i]).contains(c) by {
                if i >= 1 {
                    assert(split_slash(s)[i] == rest[i - 1]);
                }
            }
        } else {
            lemma_split_len(s.drop_first());
            assert(!(seq![s[0]] + rest[0]).contains(c)) by {
                if (seq![s[0]] + rest[0]).contains(c) {
                    let j = choose|j: int|
                        0 <= j < (seq![s[0]] + rest[0]).len() && (seq![s[0]] + rest[0])[j] == c;
                    if j >= 1 {
                        assert(rest[0][j - 1] == c);
                        assert(rest[0].contains(c));
                    }
                }
            }
            assert forall|i: int|
                0 <= i < split_slash(s).len() implies !(#[trigger] split_slash(
                s,
            )[i]).contains(c) by {
                if i >= 1 {
                    assert(split_slash(s)[i] == rest[i]);
                }
            }
        }
    }
}

/// A stored path without `%` decodes to itself.
pub proof fn lemma_decode_plain_path(p: Seq<char>)
    requires
        !p.contains('%'),
    ensures
        decode_path_spec(p) == Some(p),
{
    lemma_split_preserves_free(p, '%');
    lemma_split_len(p);
    let segs = split_slash(p);
    assert(all_decodable(segs)) by {
        assert forall|i: int| 0 <= i < segs.len() implies (#[trigger] dec_seg(
            segs[i],
        )) is Some by {
            assert(!segs[i].contains('%'));
        }
    }
    assert(dec_all(segs) =~~= segs) by {
        assert forall|i: int| 0 <= i < segs.len() implies dec_all(segs)[i] == segs[i] by {
            assert(!segs[i].contains('%'));
        }
    }
    lemma_join_split(p);
}

/// Decoding `/vault/` plus joined segments that each decode back to
/// the segments of `t` yields `/vault/` plus `t` itself.
proof fn lemma_decode_vault_path(t: Seq<char>, es: Seq<Seq<char>>)
    requires
        es.len() == split_slash(t).len(),
        forall|j: int| 0 <= j < es.len() ==> dec_seg(#[trigger] es[j]) == Some(split_slash(t)[j]),
        forall|j: int| 0 <= j < es.len() ==> !(#[trigger] es[j]).contains('/'),
    ensures
        decode_path_spec("/vault/"@ + join_slash(es)) == Some("/vault/"@ + t),
{
    let ts = split_slash(t);
    let vseg = seq!['v', 'a', 'u', 'l', 't'];
    let jn = join_slash(es);
    let p = "/vault/"@ + jn;
    lemma_split_len(t);
    reveal_strlit("/vault/");
    assert("/vault/"@ =~= seq!['/', 'v', 'a', 'u', 'l', 't', '/']);
    // Split the encoded path back into its segments.
    assert(p =~= Seq::<char>::empty() + seq!['/'] + (vseg + seq!['/'] + jn));
    lemma_split_concat(Seq::<char>::empty(), vseg + seq!['/'] + jn);
    lemma_split_concat(vseg, jn);
    assert(!vseg.contains('/')) by {
        if vseg.contains('/') {
            let k = choose|k: int| 0 <= k < vseg.len() && vseg[k] == '/';
        }
    }
    lemma_split_no_slash(vseg);
    lemma_split_join(es);
    let full = seq![Seq::<char>::empty(), vseg] + es;
    assert(split_slash(p) =~~= full);
    // Every segment of the encoded path decodes, back to the raw segments.
    assert(!Seq::<char>::empty().contains('%'));
    assert(!vseg.contains('%')) by {
        if vseg.contains('%') {
            let k = choose|k: int| 0 <= k < vseg.len() && vseg[k] == '%';
        }
    }
    assert(all_decodable(full)) by {
        assert forall|j: int| 0 <= j < full.len() implies (#[trigger] dec_seg(
            full[j],
        )) is Some by {
            if j >= 2 {
                assert(full[j] == es[j - 2]);
                assert(dec_seg(es[j - 2]) == Some(ts[j - 2]));
            }
        }
    }
    assert(dec_all(full) =~~= seq![Seq::<char>::empty(), vseg] + ts) by {
        assert forall|j: int| 0 <= j < full.len() implies dec_all(full)[j] == (seq![
            Seq::<char>::empty(),
            vseg,
        ] + ts)[j] by {
            if j >= 2 {
                assert(full[j] == es[j - 2]);
                assert(dec_seg(es[j - 2]) == Some(ts[j - 2]));
            }
        }
    }
    // Rejoining the decoded segments gives `/vault/` plus the raw target.
    lemma_join_split(t);
    assert(dec_all(full).drop_first() =~~= seq![vseg] + ts);
    assert(join_slash(dec_all(full)) == dec_all(full)[0] + seq!['/'] + join_slash(
        dec_all(full).drop_first(),
    ));
    assert(join_slash(seq![vseg] + ts) == vseg + seq!['/'] + join_slash(ts)) by {
        assert((seq![vseg] + ts).drop_first() =~~= ts);
        assert((seq![vseg] + ts).len() >= 2);
    }
    assert(join_slash(dec_all(full)) =~= "/vault/"@ + t);
    assert(decode_path_spec(p) == Some("/vault/"@ + t));
}

/// Encodes a raw target into its canonical vault path: split on `/`,
/// percent-encode each segment, rejoin under `/vault/`. The second
/// clause is the round trip: decoding the result for display always
/// succeeds and gives back `/vault/` followed by the raw target.
pub fn encode_target(target: &str) -> (r: String)
    ensures
        r@ == encode_path_spec(target@),
        decode_path_spec(r@) == Some("/vault/"@ + target@),
{
    let segs = split_on_slash(target);
    let ghost ts = split_slash(target@);
    let mut enc_segs: Vec<String> = Vec::new();
    let mut i: usize = 0;
    while i < segs.len()
        invariant
            0 <= i <= segs@.len(),
            views_of(segs@) == ts,
            ts == split_slash(target@),
            enc_segs@.len() == i,
            forall|j: int| 0 <= j < i ==> (#[trigger] enc_segs@[j])@ == url_encoded(ts[j]),
            forall|j: int| 0 <= j < i ==> dec_seg((#[trigger] enc_segs@[j])@) == Some(ts[j]),
            forall|j: int| 0 <= j < i ==> !(#[trigger] enc_segs@[j])@.contains('/'),
        decreases segs@.len() - i,
    {
        let e = encode_component(segs[i].as_str());
        proof {
            assert(segs@[i as int]@ == ts[i as int]);
            assert(dec_seg(e@) == Some(ts[i as int]));
        }
        enc_segs.push(e);
        i += 1;
    }
    proof {
        lemma_split_len(target@);
    }
    let joined = join_with_slash(&enc_segs);
    let mut r = String::from_str("/vault/");
    r.append(joined.as_str());
    proof {
        let es = views_of(enc_segs@);
        assert forall|j: int| 0 <= j < es.len() implies dec_seg(#[trigger] es[j]) == Some(
            ts[j],
        ) && !es[j].contains('/') && es[j] == url_encoded(ts[j]) by {
            assert(es[j] == enc_segs@[j]@);
        }
        lemma_decode_vault_path(target@, es);
        assert(es =~~= enc_all(ts));
        assert(r@ == "/vault/"@ + join_slash(es));
    }
    r
}

/// Decodes a stored path segment-wise for human display; `None` on a
/// malformed escape (a decoded segment that is not UTF-8).
pub fn decode_target(path: &str) -> (r: Option<String>)
    ensures
        r is Some <==> decode_path_spec(path@) is Some,
        r matches Some(d) ==> Some(d@) == decode_path_spec(path@),
{
    let segs = split_on_slash(path);
    let ghost ps = split_slash(path@);
    let mut dec_segs: Vec<String> = Vec::new();
    let mut i: usize = 0;
    while i < segs.len()
        invariant
            0 <= i <= segs@.len(),
            views_of(segs@) == ps,
            ps == split_slash(path@),
            dec_segs@.len() == i,
            forall|j: int| 0 <= j < i ==> dec_seg(ps[j]) == Some((#[trigger] dec_segs@[j])@),
        decreases segs@.len() - i,
    {
        match decode_component(segs[i].as_str()) {
            Some(d) => {
                proof {
                    assert(segs@[i as int]@ == ps[i as int]);
                    assert(dec_seg(ps[i as int]) == Some(d@));
                }
                dec_segs.push(d);
            },
            None => {
                proof {
                    assert(segs@[i as int]@ == ps[i as int]);
                    assert(dec_seg(ps[i as int]) is None);
                    assert(!all_decodable(ps));
                }
                return None;
            },
        }
        i += 1;
    }
    let joined = join_with_slash(&dec_segs);
    proof {
        assert(all_decodable(ps)) by {
            assert forall|j: int| 0 <= j < ps.len() implies (#[trigger] dec_seg(
                ps[j],
            )) is Some by {
                assert(dec_seg(ps[j]) == Some(dec_segs@[j]@));
            }
        }
        assert(views_of(dec_segs@) =~~= dec_all(ps));
        assert(Some(joined@) == decode_path_spec(path@));
    }
    Some(joined)
}

/// Character-by-character string equality.
fn str_eq(a: &str, b: &str) -> (r: bool)
    ensures
        r <==> a@ == b@,
{
    let an: usize = a.unicode_len();
    let bn: usize = b.unicode_len();
    if an != bn {
        return false;
    }
    let mut i: usize = 0;
    while i < an
        invariant
            an == a@.len(),
            an == b@.len(),
            0 <= i <= an,
            forall|j: int| 0 <= j < i ==> a@[j] == b@[j],
        decreases an - i,
    {
        if a.get_char(i) != b.get_char(i) {
            return false;
        }
        i += 1;
    }
    proof {
        assert(a@ =~= b@);
    }
    true
}

/// The five reserved periodic-note shorthands and the fixed paths they
/// resolve to. Matching is exact: nothing else, in no other spelling
/// or case, is a shorthand.
pub open spec fn shorthand_path(t: Seq<char>) -> Option<Seq<char>> {
    if t == "daily"@ {
        Some("/periodic/daily/"@)
    } else if t == "weekly"@ {
        Some("/periodic/weekly/"@)
    } else if t == "monthly"@ {
        Some("/periodic/monthly/"@)
    } else if t == "quarterly"@ {
        Some("/periodic/quarterly/"@)
    } else if t == "yearly"@ {
        Some("/periodic/yearly/"@)
    } else {
        None
    }
}

/// What a user-supplied target resolves to: its fixed periodic path if
/// it is a shorthand, else its encoded vault path.
pub open spec fn resolve_spec(t: Seq<char>) -> Seq<char> {
    match shorthand_path(t) {
        Some(p) => p,
        None => encode_path_spec(t),
    }
}

/// Resolves a user-supplied target: shorthand lookup first, generic
/// encoding otherwise. Whatever the input, the result decodes for
/// display: to the fixed periodic path itself, or to `/vault/` plus
/// the raw target.
pub fn resolve_target(target: &str) -> (r: String)
    ensures
        r@ == resolve_spec(target@),
        shorthand_path(target@) matches Some(p) ==> decode_path_spec(r@) == Some(p),
        shorthand_path(target@) is None ==> decode_path_spec(r@) == Some("/vault/"@ + target@),
        decode_path_spec(r@) is Some,
{
    if str_eq(target, "daily") {
        let r = String::from_str("/periodic/daily/");
        proof {
            assert(!r@.contains('%')) by {
                reveal_strlit("/periodic/daily/");
                if r@.contains('%') {
                    let k = choose|k: int| 0 <= k < r@.len() && r@[k] == '%';
                }
            }
            lemma_decode_plain_path(r@);
        }
        r
    } else if str_eq(target, "weekly") {
        let r = String::from_str("/periodic/weekly/");
        proof {
            assert(!r@.contains('%')) by {
                reveal_strlit("/periodic/weekly/");
                if r@.contains('%') {
                    let k = choose|k: int| 0 <= k < r@.len() && r@[k] == '%';
                }
            }
            lemma_decode_plain_path(r@);
        }
        r
    } else if str_eq(target, "monthly") {
        let r = String::from_str("/periodic/monthly/");
        proof {
            assert(!r@.contains('%')) by {
                reveal_strlit("/periodic/monthly/");
                if r@.contains('%') {
                    let k = choose|k: int| 0 <= k < r@.len() && r@[k] == '%';
                }
            }
            lemma_decode_plain_path(r@);
        }
        r
    } else if str_eq(target, "quarterly") {
        let r = String::from_str("/periodic/quarterly/");
        proof {
            assert(!r@.contains('%')) by {
                reveal_strlit("/periodic/quarterly/");
                if r@.contains('%') {
                    let k = choose|k: int| 0 <= k < r@.len() && r@[k] == '%';
                }
            }
            lemma_decode_plain_path(r@);
        }
        r
    } else if str_eq(target, "yearly") {
        let r = String::from_str("/periodic/yearly/");
        proof {
            assert(!r@.contains('%')) by {
                reveal_strlit("/periodic/yearly/");
                if r@.contains('%') {
                    let k = choose|k: int| 0 <= k < r@.len() && r@[k] == '%';
                }
            }
            lemma_decode_plain_path(r@);
        }
        r
    } else {
        encode_target(target)
    }
}

} // verus!
