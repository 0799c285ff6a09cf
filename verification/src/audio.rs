//! Which audio streams are actually audible, from `pactl list sink-inputs`
//! output and the MPRIS playback status of media players.
//!
//! A stream keeps idle detection suppressed only while it is running
//! (not corked), unmuted and not a virtual processing node; a stream whose
//! player reports itself paused through MPRIS does not count either.
use vstd::prelude::*;
use crate::text::{
    chars_of, contains, contains_exec, eq_chars, lemma_trim_end_prefix, lemma_trim_ends,
    split_lines, split_lines_exec, split_once, split_once_exec, starts_with, starts_with_exec,
    string_of, strip_prefix, strip_prefix_exec, trim, trim_char, trim_char_chars, trim_chars,
    views,
};

verus! {

// ---------------------------------------------------------------------------
// The pactl sink-input listing
// ---------------------------------------------------------------------------

pub open spec fn header_tag() -> Seq<char> {
    "Sink Input #"@
}

pub open spec fn corked_tag() -> Seq<char> {
    "Corked:"@
}

pub open spec fn mute_tag() -> Seq<char> {
    "Mute:"@
}

pub open spec fn app_name_key() -> Seq<char> {
    "application.name"@
}

pub open spec fn media_name_key() -> Seq<char> {
    "media.name"@
}

pub open spec fn virtual_key() -> Seq<char> {
    "node.virtual"@
}

/// What one sink-input block has said so far: its `Corked:` and `Mute:`
/// values and the last value of each property that decides audibility.
pub struct BlockView {
    pub corked: Seq<char>,
    pub mute: Seq<char>,
    pub app_name: Option<Seq<char>>,
    pub media_name: Option<Seq<char>>,
    pub node_virtual: Option<Seq<char>>,
}

pub open spec fn empty_block() -> BlockView {
    BlockView {
        corked: Seq::empty(),
        mute: Seq::empty(),
        app_name: None,
        media_name: None,
        node_virtual: None,
    }
}

/// The effect of one trimmed, non-header line on the block it belongs to.
pub open spec fn block_after_line(b: BlockView, t: Seq<char>) -> BlockView {
    if strip_prefix(t, corked_tag()) is Some {
        BlockView { corked: strip_prefix(t, corked_tag())->0, ..b }
    } else if strip_prefix(t, mute_tag()) is Some {
        BlockView { mute: strip_prefix(t, mute_tag())->0, ..b }
    } else {
        match split_once(t, "="@) {
            Some((k0, v0)) => {
                let k = trim(k0);
                let v = trim(v0);
                if k == app_name_key() {
                    BlockView { app_name: Some(v), ..b }
                } else if k == media_name_key() {
                    BlockView { media_name: Some(v), ..b }
                } else if k == virtual_key() {
                    BlockView { node_virtual: Some(v), ..b }
                } else {
                    b
                }
            },
            None => b,
        }
    }
}

/// The name that a finished block contributes: present only when the stream
/// is neither corked nor muted (both values exactly `no`) and is not a
/// virtual node; named by `application.name`, else `media.name`, else
/// `unknown`, without surrounding double quotes.
pub open spec fn block_name(b: BlockView) -> Option<Seq<char>> {
    if trim(b.corked) != "no"@ || trim(b.mute) != "no"@ {
        None
    } else if b.node_virtual is Some && trim(b.node_virtual->0) == "\"true\""@ {
        None
    } else {
        match b.app_name {
            Some(n) => Some(trim_char(n, '"')),
            None => match b.media_name {
                Some(n) => Some(trim_char(n, '"')),
                None => Some("unknown"@),
            },
        }
    }
}

pub open spec fn opt_seq(o: Option<Seq<char>>) -> Seq<Seq<char>> {
    match o {
        Some(n) => seq![n],
        None => Seq::empty(),
    }
}

/// The names contributed by `lines`, the block `b` being open before them.
/// Every `Sink Input #` line closes the open block and opens an empty one.
pub open spec fn scan_blocks(lines: Seq<Seq<char>>, b: BlockView) -> Seq<Seq<char>>
    decreases lines.len(),
{
    if lines.len() == 0 {
        opt_seq(block_name(b))
    } else {
        let t = trim(lines[0]);
        if starts_with(t, header_tag()) {
            opt_seq(block_name(b)) + scan_blocks(lines.drop_first(), empty_block())
        } else {
            scan_blocks(lines.drop_first(), block_after_line(b, t))
        }
    }
}

/// The audible stream names of a `pactl list sink-inputs` listing, in order.
pub open spec fn audible_stream_names(text: Seq<char>) -> Seq<Seq<char>> {
    scan_blocks(split_lines(text), empty_block())
}

/// The value of a trimmed property line `application.name = value`: the
/// text after the first `=`, trimmed, when the text before it is the key.
pub open spec fn app_name_value(t: Seq<char>) -> Option<Seq<char>> {
    match split_once(t, "="@) {
        Some((k, v)) => if trim(k) == app_name_key() {
            Some(trim(v))
        } else {
            None
        },
        None => None,
    }
}

/// The value of the last `application.name` line among `lines`, or `before`
/// when none of them is one.
pub open spec fn last_app_name(lines: Seq<Seq<char>>, before: Option<Seq<char>>) -> Option<
    Seq<char>,
>
    decreases lines.len(),
{
    if lines.len() == 0 {
        before
    } else {
        last_app_name(
            lines.drop_first(),
            match app_name_value(trim(lines[0])) {
                Some(v) => Some(v),
                None => before,
            },
        )
    }
}

spec fn fold_block(lines: Seq<Seq<char>>, b: BlockView) -> BlockView
    decreases lines.len(),
{
    if lines.len() == 0 {
        b
    } else {
        fold_block(lines.drop_first(), block_after_line(b, trim(lines[0])))
    }
}

proof fn lemma_line_app_name(b: BlockView, l: Seq<char>)
    ensures
        block_after_line(b, trim(l)).app_name == match app_name_value(trim(l)) {
            Some(v) => Some(v),
            None => b.app_name,
        },
{
    let t = trim(l);
    reveal_strlit("application.name");
    reveal_strlit("Corked:");
    reveal_strlit("Mute:");
    if app_name_value(t) is Some {
        let i = crate::text::first_occurrence(t, "="@);
        crate::text::lemma_first_occurrence_exists(t, "="@);
        let k = t.subrange(0, i);
        assert(trim(k) == app_name_key());
        lemma_trim_ends(l);
        lemma_trim_end_prefix(k);
        assert(k.len() > 0) by {
            if k.len() == 0 {
                assert(trim(k) =~= Seq::<char>::empty());
            }
        }
        assert(k[0] == t[0]);
        assert(crate::text::trim_start(k) == k);
        assert(trim(k)[0] == k[0]);
        assert(t[0] == 'a');
        if starts_with(t, corked_tag()) {
            assert(t.subrange(0, 7)[0] == t[0]);
        }
        if starts_with(t, mute_tag()) {
            assert(t.subrange(0, 5)[0] == t[0]);
        }
    }
}

proof fn lemma_scan_one_block(lines: Seq<Seq<char>>, b: BlockView)
    requires
        forall|i: int| 0 <= i < lines.len() ==> !starts_with(#[trigger] trim(lines[i]), header_tag()),
    ensures
        scan_blocks(lines, b) == opt_seq(block_name(fold_block(lines, b))),
        fold_block(lines, b).app_name == last_app_name(lines, b.app_name),
    decreases lines.len(),
{
    if lines.len() > 0 {
        let t = trim(lines[0]);
        assert(!starts_with(trim(lines[0]), header_tag()));
        lemma_line_app_name(b, lines[0]);
        let rest = lines.drop_first();
        assert forall|i: int| 0 <= i < rest.len() implies !starts_with(
            #[trigger] trim(rest[i]),
            header_tag(),
        ) by {
            assert(rest[i] == lines[i + 1]);
            assert(!starts_with(trim(lines[i + 1]), header_tag()));
        }
        lemma_scan_one_block(rest, block_after_line(b, t));
    }
}

proof fn lemma_last_app_name_before(lines: Seq<Seq<char>>, x: Option<Seq<char>>)
    requires
        last_app_name(lines, None) is Some,
    ensures
        last_app_name(lines, x) == last_app_name(lines, None),
    decreases lines.len(),
{
    if lines.len() > 0 {
        match app_name_value(trim(lines[0])) {
            Some(v) => {},
            None => {
                lemma_last_app_name_before(lines.drop_first(), x);
            },
        }
    }
}

/// A stream is named by its `application.name` whenever its block has one:
/// within one block (no `Sink Input #` line among `lines`), the name listed
/// for it, if it is listed at all, is the value of the last
/// `application.name` line without its double quotes, whatever other
/// properties (`media.name` among them) come before or after that line.
pub proof fn law_application_name_names_the_stream(
    lines: Seq<Seq<char>>,
    b: BlockView,
    v: Seq<char>,
)
    requires
        forall|i: int| 0 <= i < lines.len() ==> !starts_with(#[trigger] trim(lines[i]), header_tag()),
        last_app_name(lines, None) == Some(v),
    ensures
        scan_blocks(lines, b).len() <= 1,
        scan_blocks(lines, b).len() == 1 ==> scan_blocks(lines, b)[0] == trim_char(v, '"'),
{
    lemma_scan_one_block(lines, b);
    lemma_last_app_name_before(lines, b.app_name);
}

pub open spec fn string_views(v: Seq<String>) -> Seq<Seq<char>> {
    v.map_values(|s: String| s@)
}

struct Block {
    corked: Vec<char>,
    mute: Vec<char>,
    app_name: Option<Vec<char>>,
    media_name: Option<Vec<char>>,
    node_virtual: Option<Vec<char>>,
}

impl Block {
    spec fn view_block(&self) -> BlockView {
        BlockView {
            corked: self.corked@,
            mute: self.mute@,
            app_name: match self.app_name {
                Some(v) => Some(v@),
                None => None,
            },
            media_name: match self.media_name {
                Some(v) => Some(v@),
                None => None,
            },
            node_virtual: match self.node_virtual {
                Some(v) => Some(v@),
                None => None,
            },
        }
    }

    fn new() -> (b: Block)
        ensures
            b.view_block() == empty_block(),
    {
        Block {
            corked: Vec::new(),
            mute: Vec::new(),
            app_name: None,
            media_name: None,
            node_virtual: None,
        }
    }

    fn take_line(self, t: Vec<char>) -> (r: Block)
        ensures
            r.view_block() == block_after_line(self.view_block(), t@),
    {
        let corked_tag = chars_of("Corked:");
        let mute_tag = chars_of("Mute:");
        let eq = chars_of("=");
        match strip_prefix_exec(&t, &corked_tag) {
            Some(v) => {
                return Block { corked: v, ..self };
            },
            None => {},
        }
        match strip_prefix_exec(&t, &mute_tag) {
            Some(v) => {
                return Block { mute: v, ..self };
            },
            None => {},
        }
        match split_once_exec(&t, &eq) {
            Some((k, v)) => {
                let k = trim_chars(&k);
                let v = trim_chars(&v);
                if eq_chars(&k, &chars_of("application.name")) {
                    Block { app_name: Some(v), ..self }
                } else if eq_chars(&k, &chars_of("media.name")) {
                    Block { media_name: Some(v), ..self }
                } else if eq_chars(&k, &chars_of("node.virtual")) {
                    Block { node_virtual: Some(v), ..self }
                } else {
                    self
                }
            },
            None => self,
        }
    }

    fn name(&self) -> (r: Option<String>)
        ensures
            match block_name(self.view_block()) {
                Some(n) => r matches Some(s) && s@ == n,
                None => r is None,
            },
    {
        let no = chars_of("no");
        if !eq_chars(&trim_chars(&self.corked), &no) || !eq_chars(&trim_chars(&self.mute), &no) {
            return None;
        }
        match &self.node_virtual {
            Some(v) => {
                if eq_chars(&trim_chars(v), &chars_of("\"true\"")) {
                    return None;
                }
            },
            None => {},
        }
        match &self.app_name {
            Some(n) => Some(string_of(&trim_char_chars(n, '"'))),
            None => match &self.media_name {
                Some(n) => Some(string_of(&trim_char_chars(n, '"'))),
                None => Some(string_of(&chars_of("unknown"))),
            },
        }
    }
}

fn push_opt(out: &mut Vec<String>, o: Option<String>)
    ensures
        string_views(final(out)@) == string_views(old(out)@) + match o {
            Some(s) => seq![s@],
            None => Seq::<Seq<char>>::empty(),
        },
{
    let ghost before = out@;
    match o {
        Some(s) => {
            out.push(s);
            assert(string_views(out@) =~= string_views(before) + seq![out@.last()@]);
        },
        None => {
            assert(string_views(out@) =~= string_views(before) + Seq::<Seq<char>>::empty());
        },
    }
}

/// The names of the sink inputs in a `pactl list sink-inputs` listing that
/// can actually be heard: running, unmuted, and not virtual processing links.
pub fn audible_streams(text: &str) -> (r: Vec<String>)
    ensures
        string_views(r@) == audible_stream_names(text@),
{
    let chars = chars_of(text);
    let lines = split_lines_exec(&chars);
    let header = chars_of("Sink Input #");
    let mut names: Vec<String> = Vec::new();
    let mut block = Block::new();
    let mut i: usize = 0;
    assert(views(lines@).skip(0) =~= views(lines@));
    while i < lines.len()
        invariant
            i <= lines.len(),
            header@ == header_tag(),
            views(lines@) == split_lines(text@),
            string_views(names@) + scan_blocks(views(lines@).skip(i as int), block.view_block())
                == audible_stream_names(text@),
        decreases lines.len() - i,
    {
        let ghost rest = views(lines@).skip(i as int);
        assert(rest[0] == lines@[i as int]@);
        assert(rest.drop_first() =~= views(lines@).skip(i + 1));
        let t = trim_chars(&lines[i]);
        if starts_with_exec(&t, &header) {
            let n = block.name();
            push_opt(&mut names, n);
            block = Block::new();
        } else {
            block = block.take_line(t);
        }
        i += 1;
    }
    let n = block.name();
    push_opt(&mut names, n);
    assert(string_views(names@) =~= audible_stream_names(text@));
    names
}

// ---------------------------------------------------------------------------
// Matching streams against paused MPRIS players
// ---------------------------------------------------------------------------

/// What `str::to_lowercase` returns for `s` (full Unicode case mapping).
pub uninterp spec fn lowercase(s: Seq<char>) -> Seq<char>;

/// `str::to_lowercase`; its result is named `lowercase`.
#[verifier::external_body]
fn lowercase_of(s: &str) -> (r: String)
    ensures
        r@ == lowercase(s@),
{
    s.to_lowercase()
}

/// Whether the lower-cased stream name and a paused player's identity contain
/// one another.
pub open spec fn names_match(app_lower: Seq<char>, player: Seq<char>) -> bool {
    contains(app_lower, player) || contains(player, app_lower)
}

pub open spec fn is_paused_spec(app: Seq<char>, paused: Seq<Seq<char>>) -> bool {
    exists|i: int| 0 <= i < paused.len() && names_match(lowercase(app), #[trigger] paused[i])
}

/// Whether a stream belongs to an application whose MPRIS player is paused.
/// The match is loose on purpose: `PipeWire ALSA [selfsonic]` belongs to the
/// player `selfsonic`, `Chromium` to `chromium.instance1809`.
pub fn is_paused_app(app: &str, paused: &[String]) -> (r: bool)
    ensures
        r == is_paused_spec(app@, string_views(paused@)),
{
    let a = chars_of(lowercase_of(app).as_str());
    let mut i: usize = 0;
    while i < paused.len()
        invariant
            i <= paused.len(),
            a@ == lowercase(app@),
            forall|j: int| 0 <= j < i ==> !names_match(a@, #[trigger] paused@[j]@),
        decreases paused.len() - i,
    {
        let p = chars_of(paused[i].as_str());
        if contains_exec(&a, &p) || contains_exec(&p, &a) {
            assert(string_views(paused@)[i as int] == paused@[i as int]@);
            return true;
        }
        i += 1;
    }
    assert forall|j: int|
        0 <= j < paused@.len() implies !names_match(
        lowercase(app@),
        #[trigger] string_views(paused@)[j],
    ) by {
        assert(string_views(paused@)[j] == paused@[j]@);
    }
    false
}

/// The streams of `candidates` that do not belong to a paused player, in order.
pub open spec fn unpaused_streams(candidates: Seq<Seq<char>>, paused: Seq<Seq<char>>) -> Seq<
    Seq<char>,
>
    decreases candidates.len(),
{
    if candidates.len() == 0 {
        Seq::empty()
    } else {
        let rest = unpaused_streams(candidates.drop_last(), paused);
        if is_paused_spec(candidates.last(), paused) {
            rest
        } else {
            rest.push(candidates.last())
        }
    }
}

/// Drops from the audible streams those whose player reports itself paused:
/// some players keep their stream running while paused.
pub fn drop_paused_streams(candidates: &Vec<String>, paused: &[String]) -> (r: Vec<String>)
    ensures
        string_views(r@) == unpaused_streams(string_views(candidates@), string_views(paused@)),
{
    let mut out: Vec<String> = Vec::new();
    let mut i: usize = 0;
    assert(string_views(candidates@).take(0) =~= Seq::<Seq<char>>::empty());
    while i < candidates.len()
        invariant
            i <= candidates.len(),
            string_views(out@) == unpaused_streams(
                string_views(candidates@).take(i as int),
                string_views(paused@),
            ),
        decreases candidates.len() - i,
    {
        let ghost before = out@;
        let ghost cs = string_views(candidates@);
        assert(cs.take(i + 1).drop_last() =~= cs.take(i as int));
        assert(cs.take(i + 1).last() == candidates@[i as int]@);
        if !is_paused_app(candidates[i].as_str(), paused) {
            out.push(candidates[i].clone());
            assert(string_views(out@) =~= string_views(before).push(candidates@[i as int]@));
        }
        i += 1;
    }
    assert(string_views(candidates@).take(candidates.len() as int) =~= string_views(candidates@));
    out
}

pub open spec fn mpris_prefix() -> Seq<char> {
    "org.mpris.MediaPlayer2."@
}

/// The player identity of an MPRIS bus name (`org.mpris.MediaPlayer2.<id>`),
/// or `None` for any other bus name.
pub fn mpris_identity(bus_name: &str) -> (r: Option<String>)
    ensures
        match strip_prefix(bus_name@, mpris_prefix()) {
            Some(id) => r matches Some(s) && s@ == id,
            None => r is None,
        },
{
    let name = chars_of(bus_name);
    match strip_prefix_exec(&name, &chars_of("org.mpris.MediaPlayer2.")) {
        Some(id) => Some(string_of(&id)),
        None => None,
    }
}

pub open spec fn is_paused_status(status: Seq<char>) -> bool {
    status == "Paused"@ || status == "Stopped"@
}

/// The lower-cased identities of the players whose playback status is
/// `Paused` or `Stopped`, in order; `players` holds (identity, status) pairs.
pub open spec fn paused_identities_spec(players: Seq<(Seq<char>, Seq<char>)>) -> Seq<Seq<char>>
    decreases players.len(),
{
    if players.len() == 0 {
        Seq::empty()
    } else {
        let rest = paused_identities_spec(players.drop_last());
        if is_paused_status(players.last().1) {
            rest.push(lowercase(players.last().0))
        } else {
            rest
        }
    }
}

pub open spec fn pair_views(v: Seq<(String, String)>) -> Seq<(Seq<char>, Seq<char>)> {
    v.map_values(|p: (String, String)| (p.0@, p.1@))
}

/// The players among `players` (identity, playback status) that are paused or
/// stopped, by lower-cased identity.
pub fn paused_identities(players: &Vec<(String, String)>) -> (r: Vec<String>)
    ensures
        string_views(r@) == paused_identities_spec(pair_views(players@)),
{
    let mut out: Vec<String> = Vec::new();
    let mut i: usize = 0;
    assert(pair_views(players@).take(0) =~= Seq::<(Seq<char>, Seq<char>)>::empty());
    while i < players.len()
        invariant
            i <= players.len(),
            string_views(out@) == paused_identities_spec(pair_views(players@).take(i as int)),
        decreases players.len() - i,
    {
        let ghost before = out@;
        let ghost ps = pair_views(players@);
        assert(ps.take(i + 1).drop_last() =~= ps.take(i as int));
        assert(ps.take(i + 1).last() == (players@[i as int].0@, players@[i as int].1@));
        let status = chars_of(players[i].1.as_str());
        if eq_chars(&status, &chars_of("Paused")) || eq_chars(&status, &chars_of("Stopped")) {
            let id = lowercase_of(players[i].0.as_str());
            out.push(id);
            assert(string_views(out@) =~= string_views(before).push(
                lowercase(players@[i as int].0@),
            ));
        }
        i += 1;
    }
    assert(pair_views(players@).take(players.len() as int) =~= pair_views(players@));
    out
}

} // verus!
