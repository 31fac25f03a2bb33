//! Server configuration: names, types, and defaults of the ROS node parameters.
use vstd::prelude::*;
use crate::float::Float64;
use crate::text::{pieces, same_text, split, split_char, texts, to_chars, to_text, trim, trimmed};

verus! {

/// Parsed glob list. `None` means "no filter, allow all"; `Some([])` means
/// "deny everything"; otherwise a list of `fnmatch`-style patterns.
pub type GlobList = Option<Vec<String>>;

/// A glob list as mathematics.
pub open spec fn glob_texts(g: GlobList) -> Option<Seq<Seq<char>>> {
    match g {
        Some(v) => Some(texts(v@)),
        None => None,
    }
}

/// A text without the characters `a` and `b` at its front.
pub open spec fn strip_front(s: Seq<char>, a: char, b: char) -> Seq<char>
    decreases s.len(),
{
    if s.len() > 0 && (s[0] == a || s[0] == b) {
        strip_front(s.drop_first(), a, b)
    } else {
        s
    }
}

/// A text without the characters `a` and `b` at its back.
pub open spec fn strip_back(s: Seq<char>, a: char, b: char) -> Seq<char>
    decreases s.len(),
{
    if s.len() > 0 && (s.last() == a || s.last() == b) {
        strip_back(s.drop_last(), a, b)
    } else {
        s
    }
}

fn stripped_front<'a>(s: &'a [char], a: char, b: char) -> (r: &'a [char])
    ensures
        r@ == strip_front(s@, a, b),
{
    let n = s.len();
    let mut i: usize = 0;
    assert(s@.skip(0) =~= s@);
    while i < n && (s[i] == a || s[i] == b)
        invariant
            n == s@.len(),
            i <= n,
            strip_front(s@, a, b) == strip_front(s@.skip(i as int), a, b),
        decreases n - i,
    {
        assert(s@.skip(i as int).drop_first() =~= s@.skip(i as int + 1));
        i = i + 1;
    }
    let r = vstd::slice::slice_subrange(s, i, n);
    assert(r@ =~= s@.skip(i as int));
    r
}

fn stripped_back<'a>(s: &'a [char], a: char, b: char) -> (r: &'a [char])
    ensures
        r@ == strip_back(s@, a, b),
{
    let mut j: usize = s.len();
    assert(s@.take(j as int) =~= s@);
    while j > 0 && (s[j - 1] == a || s[j - 1] == b)
        invariant
            j <= s@.len(),
            strip_back(s@, a, b) == strip_back(s@.take(j as int), a, b),
        decreases j,
    {
        assert(s@.take(j as int).drop_last() =~= s@.take(j - 1));
        j = j - 1;
    }
    let r = vstd::slice::slice_subrange(s, 0, j);
    assert(r@ =~= s@.take(j as int));
    r
}

/// One item of a glob string without white space and quotes.
pub open spec fn glob_item(p: Seq<char>) -> Seq<char> {
    trim(strip_back(strip_front(trim(p), '\'', '"'), '\'', '"'))
}

/// The items that are not empty.
pub open spec fn glob_items(parts: Seq<Seq<char>>) -> Seq<Seq<char>>
    decreases parts.len(),
{
    if parts.len() == 0 {
        Seq::empty()
    } else {
        let rest = glob_items(parts.drop_last());
        let item = glob_item(parts.last());
        if item.len() > 0 {
            rest.push(item)
        } else {
            rest
        }
    }
}

/// What a glob string means: nothing allows all, brackets around nothing deny all,
/// and otherwise the items are the patterns.
pub open spec fn glob_of(s: Seq<char>) -> Option<Seq<Seq<char>>> {
    let t = trim(s);
    let inner = trim(strip_back(strip_front(t, '[', '['), ']', ']'));
    if t.len() == 0 {
        None
    } else if inner.len() == 0 {
        Some(Seq::empty())
    } else {
        Some(glob_items(split(inner, ',')))
    }
}

/// Parses a glob string in the rosbridge format:
/// * `""` -> `None` (allow all)
/// * `"[]"` -> `Some([])` (deny all)
/// * `"['/a', '/b']"` -> `Some(["/a","/b"])`
pub fn parse_glob_string(s: &str) -> (r: GlobList)
    ensures
        glob_texts(r) == glob_of(s@),
{
    let chars = to_chars(s);
    let t = trimmed(chars.as_slice());
    if t.len() == 0 {
        return None;
    }
    let inner = trimmed(stripped_back(stripped_front(t, '[', '['), ']', ']'));
    let mut items: Vec<String> = Vec::new();
    assert(texts(items@) =~= Seq::empty());
    if inner.len() == 0 {
        return Some(items);
    }
    let parts = split_char(inner, ',');
    let ghost all = pieces(parts@);
    assert(all.take(0) =~= Seq::empty());
    for i in 0..parts.len()
        invariant
            all == pieces(parts@),
            texts(items@) == glob_items(all.take(i as int)),
    {
        let ghost before = items@;
        let part = trimmed(parts[i].as_slice());
        let item = trimmed(stripped_back(stripped_front(part, '\'', '"'), '\'', '"'));
        proof {
            assert(all.take(i as int + 1).drop_last() =~= all.take(i as int));
            assert(all.take(i as int + 1).last() == parts@[i as int]@);
        }
        if item.len() > 0 {
            let text = to_text(item);
            items.push(text);
            assert(texts(items@) =~= texts(before).push(text@));
        }
    }
    assert(all.take(all.len() as int) =~= all);
    Some(items)
}

/// Full server configuration. Durations are in seconds.
pub struct Config {
    // --- server params ---
    pub port: u16,
    pub address: String,
    pub url_path: String,
    pub retry_startup_delay: Float64,
    pub certfile: String,
    pub keyfile: String,
    pub websocket_ping_interval: Float64,
    pub websocket_ping_timeout: Float64,
    pub use_compression: bool,
    // --- protocol params ---
    pub fragment_timeout: u64,
    pub delay_between_messages: Float64,
    pub max_message_size: usize,
    pub unregister_timeout: Float64,
    pub topics_glob: GlobList,
    pub topics_pub_glob: GlobList,
    pub topics_sub_glob: GlobList,
    pub services_glob: GlobList,
    pub actions_glob: GlobList,
    pub call_services_in_new_thread: bool,
    pub default_call_service_timeout: Float64,
    pub send_action_goals_in_new_thread: bool,
}

/// A configuration as mathematics.
#[verifier::ext_equal]
pub ghost struct ConfigModel {
    pub port: u16,
    pub address: Seq<char>,
    pub url_path: Seq<char>,
    pub retry_startup_delay: Float64,
    pub certfile: Seq<char>,
    pub keyfile: Seq<char>,
    pub websocket_ping_interval: Float64,
    pub websocket_ping_timeout: Float64,
    pub use_compression: bool,
    pub fragment_timeout: u64,
    pub delay_between_messages: Float64,
    pub max_message_size: usize,
    pub unregister_timeout: Float64,
    pub topics_glob: Option<Seq<Seq<char>>>,
    pub topics_pub_glob: Option<Seq<Seq<char>>>,
    pub topics_sub_glob: Option<Seq<Seq<char>>>,
    pub services_glob: Option<Seq<Seq<char>>>,
    pub actions_glob: Option<Seq<Seq<char>>>,
    pub call_services_in_new_thread: bool,
    pub default_call_service_timeout: Float64,
    pub send_action_goals_in_new_thread: bool,
}

impl View for Config {
    type V = ConfigModel;

    open spec fn view(&self) -> ConfigModel {
        ConfigModel {
            port: self.port,
            address: self.address@,
            url_path: self.url_path@,
            retry_startup_delay: self.retry_startup_delay,
            certfile: self.certfile@,
            keyfile: self.keyfile@,
            websocket_ping_interval: self.websocket_ping_interval,
            websocket_ping_timeout: self.websocket_ping_timeout,
            use_compression: self.use_compression,
            fragment_timeout: self.fragment_timeout,
            delay_between_messages: self.delay_between_messages,
            max_message_size: self.max_message_size,
            unregister_timeout: self.unregister_timeout,
            topics_glob: glob_texts(self.topics_glob),
            topics_pub_glob: glob_texts(self.topics_pub_glob),
            topics_sub_glob: glob_texts(self.topics_sub_glob),
            services_glob: glob_texts(self.services_glob),
            actions_glob: glob_texts(self.actions_glob),
            call_services_in_new_thread: self.call_services_in_new_thread,
            default_call_service_timeout: self.default_call_service_timeout,
            send_action_goals_in_new_thread: self.send_action_goals_in_new_thread,
        }
    }
}

/// The defaults of the parameters.
pub open spec fn default_config() -> ConfigModel {
    ConfigModel {
        port: 9090,
        address: ""@,
        url_path: "/"@,
        // 2.0
        retry_startup_delay: Float64 { bits: 0x4000_0000_0000_0000 },
        certfile: ""@,
        keyfile: ""@,
        websocket_ping_interval: Float64 { bits: 0 },
        // 30.0
        websocket_ping_timeout: Float64 { bits: 0x403e_0000_0000_0000 },
        use_compression: false,
        fragment_timeout: 600,
        delay_between_messages: Float64 { bits: 0 },
        max_message_size: 1_000_000,
        // 10.0
        unregister_timeout: Float64 { bits: 0x4024_0000_0000_0000 },
        topics_glob: None,
        topics_pub_glob: None,
        topics_sub_glob: None,
        services_glob: None,
        actions_glob: None,
        call_services_in_new_thread: true,
        // 5.0
        default_call_service_timeout: Float64 { bits: 0x4014_0000_0000_0000 },
        send_action_goals_in_new_thread: true,
    }
}

impl Default for Config {
    fn default() -> (r: Self)
        ensures
            r@ == default_config(),
    {
        Config {
            port: 9090,
            address: "".to_owned(),
            url_path: "/".to_owned(),
            retry_startup_delay: Float64 { bits: 0x4000_0000_0000_0000 },
            certfile: "".to_owned(),
            keyfile: "".to_owned(),
            websocket_ping_interval: Float64 { bits: 0 },
            websocket_ping_timeout: Float64 { bits: 0x403e_0000_0000_0000 },
            use_compression: false,
            fragment_timeout: 600,
            delay_between_messages: Float64 { bits: 0 },
            max_message_size: 1_000_000,
            unregister_timeout: Float64 { bits: 0x4024_0000_0000_0000 },
            topics_glob: None,
            topics_pub_glob: None,
            topics_sub_glob: None,
            services_glob: None,
            actions_glob: None,
            call_services_in_new_thread: true,
            default_call_service_timeout: Float64 { bits: 0x4014_0000_0000_0000 },
            send_action_goals_in_new_thread: true,
        }
    }
}

/// A list with the patterns of another that it does not hold yet at its end.
pub open spec fn append_new(list: Seq<Seq<char>>, extra: Seq<Seq<char>>) -> Seq<Seq<char>>
    decreases extra.len(),
{
    if extra.len() == 0 {
        list
    } else {
        let done = append_new(list, extra.drop_last());
        if done.contains(extra.last()) {
            done
        } else {
            done.push(extra.last())
        }
    }
}

/// A glob list with further patterns; without a list they are the list.
pub open spec fn merged(target: Option<Seq<Seq<char>>>, extra: Seq<Seq<char>>) -> Option<
    Seq<Seq<char>>,
> {
    match target {
        Some(list) => Some(append_new(list, extra)),
        None => Some(extra),
    }
}

/// A configuration with the legacy `topics_glob` in both topic lists, and the
/// `rosapi` services in a list of services.
pub open spec fn finalized(c: ConfigModel) -> ConfigModel {
    ConfigModel {
        topics_pub_glob: match c.topics_glob {
            Some(legacy) => merged(c.topics_pub_glob, legacy),
            None => c.topics_pub_glob,
        },
        topics_sub_glob: match c.topics_glob {
            Some(legacy) => merged(c.topics_sub_glob, legacy),
            None => c.topics_sub_glob,
        },
        services_glob: match c.services_glob {
            Some(list) => Some(append_new(list, seq!["/rosapi/*"@])),
            None => None,
        },
        ..c
    }
}

fn contains_text(list: &Vec<String>, s: &str) -> (r: bool)
    ensures
        r == texts(list@).contains(s@),
{
    for i in 0..list.len()
        invariant
            forall|j: int| 0 <= j < i ==> texts(list@)[j] != s@,
    {
        assert(texts(list@)[i as int] == list@[i as int]@);
        if same_text(list[i].as_str(), s) {
            return true;
        }
    }
    false
}

fn append_texts(list: &mut Vec<String>, extra: &Vec<String>)
    ensures
        texts(final(list)@) == append_new(texts(old(list)@), texts(extra@)),
{
    let ghost start = texts(list@);
    let ghost all = texts(extra@);
    assert(all.take(0) =~= Seq::empty());
    for i in 0..extra.len()
        invariant
            all == texts(extra@),
            texts(list@) == append_new(start, all.take(i as int)),
    {
        let ghost before = list@;
        proof {
            assert(all.take(i as int + 1).drop_last() =~= all.take(i as int));
            assert(all.take(i as int + 1).last() == extra@[i as int]@);
        }
        if !contains_text(list, extra[i].as_str()) {
            let e = extra[i].as_str().to_owned();
            list.push(e);
            assert(texts(list@) =~= texts(before).push(e@));
        }
    }
    assert(all.take(all.len() as int) =~= all);
}

fn copy_texts(list: &Vec<String>) -> (r: Vec<String>)
    ensures
        texts(r@) == texts(list@),
{
    let mut out: Vec<String> = Vec::new();
    for i in 0..list.len()
        invariant
            out@.len() == i,
            forall|j: int| 0 <= j < i ==> (#[trigger] out@[j])@ == list@[j]@,
    {
        out.push(list[i].as_str().to_owned());
    }
    assert(texts(out@) =~= texts(list@));
    out
}

fn merge_glob(target: &mut GlobList, extra: &Vec<String>)
    ensures
        glob_texts(*final(target)) == merged(glob_texts(*old(target)), texts(extra@)),
{
    match target.take() {
        Some(list) => {
            let mut list = list;
            append_texts(&mut list, extra);
            *target = Some(list);
        },
        None => {
            *target = Some(copy_texts(extra));
        },
    }
}

impl Config {
    /// Merges the legacy `topics_glob` into both pub and sub globs, and appends
    /// `/rosapi/*` to a non-None `services_glob`, matching node startup logic.
    pub fn finalize_globs(&mut self)
        ensures
            final(self)@ == finalized(old(self)@),
    {
        let ghost before = self@;
        if let Some(legacy) = &self.topics_glob {
            merge_glob(&mut self.topics_pub_glob, legacy);
            merge_glob(&mut self.topics_sub_glob, legacy);
        }
        if let Some(list) = self.services_glob.take() {
            let mut list = list;
            let mut rosapi: Vec<String> = Vec::new();
            rosapi.push("/rosapi/*".to_owned());
            assert(texts(rosapi@) =~= seq!["/rosapi/*"@]);
            append_texts(&mut list, &rosapi);
            self.services_glob = Some(list);
        }
        assert(self@ =~= finalized(before));
    }

    /// True when SSL should be enabled (both cert and key set).
    pub fn ssl_enabled(&self) -> (r: bool)
        ensures
            r == (self.certfile@.len() > 0 && self.keyfile@.len() > 0),
    {
        to_chars(self.certfile.as_str()).len() > 0 && to_chars(self.keyfile.as_str()).len() > 0
    }
}

proof fn lemma_append_contains(list: Seq<Seq<char>>, extra: Seq<Seq<char>>, s: Seq<char>)
    ensures
        append_new(list, extra).contains(s) <==> list.contains(s) || extra.contains(s),
    decreases extra.len(),
{
    if extra.len() > 0 {
        let first = extra.drop_last();
        let done = append_new(list, first);
        lemma_append_contains(list, first, s);
        if extra.contains(s) {
            let i = choose|i: int| 0 <= i < extra.len() && extra[i] == s;
            if i < first.len() {
                assert(first[i] == s);
            }
        }
        if first.contains(s) {
            let i = choose|i: int| 0 <= i < first.len() && first[i] == s;
            assert(extra[i] == s);
        }
        assert(extra[extra.len() - 1] == extra.last());
        if !done.contains(extra.last()) {
            let all = done.push(extra.last());
            if all.contains(s) {
                let i = choose|i: int| 0 <= i < all.len() && all[i] == s;
                if i < done.len() {
                    assert(done[i] == s);
                }
            }
            if done.contains(s) {
                let i = choose|i: int| 0 <= i < done.len() && done[i] == s;
                assert(all[i] == s);
            }
            assert(all[done.len() as int] == extra.last());
        }
    }
}

proof fn lemma_append_nothing(list: Seq<Seq<char>>, extra: Seq<Seq<char>>)
    requires
        forall|i: int| 0 <= i < extra.len() ==> list.contains(#[trigger] extra[i]),
    ensures
        append_new(list, extra) == list,
    decreases extra.len(),
{
    if extra.len() > 0 {
        let first = extra.drop_last();
        assert forall|i: int| 0 <= i < first.len() implies list.contains(#[trigger] first[i]) by {
            assert(first[i] == extra[i]);
        }
        lemma_append_nothing(list, first);
        assert(list.contains(extra[extra.len() - 1]));
    }
}

proof fn lemma_append_twice(list: Seq<Seq<char>>, extra: Seq<Seq<char>>)
    ensures
        append_new(append_new(list, extra), extra) == append_new(list, extra),
{
    let done = append_new(list, extra);
    assert forall|i: int| 0 <= i < extra.len() implies done.contains(#[trigger] extra[i]) by {
        lemma_append_contains(list, extra, extra[i]);
    }
    lemma_append_nothing(done, extra);
}

/// Finalizing the globs twice is finalizing them once.
pub proof fn finalizing_is_idempotent(c: ConfigModel)
    ensures
        finalized(finalized(c)) == finalized(c),
{
    if let Some(legacy) = c.topics_glob {
        match c.topics_pub_glob {
            Some(list) => {
                lemma_append_twice(list, legacy);
            },
            None => {
                lemma_append_nothing(legacy, legacy);
            },
        }
        match c.topics_sub_glob {
            Some(list) => {
                lemma_append_twice(list, legacy);
            },
            None => {
                lemma_append_nothing(legacy, legacy);
            },
        }
    }
    if let Some(list) = c.services_glob {
        lemma_append_twice(list, seq!["/rosapi/*"@]);
    }
    assert(finalized(finalized(c)) =~= finalized(c));
}

/// After finalizing, every legacy pattern and every pattern that a list had is in
/// the lists, `/rosapi/*` is in a list of services, and no list appears where there
/// was none and no legacy one.
pub proof fn finalized_lists_hold_the_legacy_patterns(c: ConfigModel, s: Seq<char>)
    ensures
        c.topics_glob matches Some(legacy) ==> (legacy.contains(s) ==> finalized(
            c,
        ).topics_pub_glob.unwrap().contains(s) && finalized(c).topics_sub_glob.unwrap().contains(
            s,
        )),
        c.topics_pub_glob matches Some(list) ==> (list.contains(s) ==> finalized(
            c,
        ).topics_pub_glob.unwrap().contains(s)),
        c.topics_sub_glob matches Some(list) ==> (list.contains(s) ==> finalized(
            c,
        ).topics_sub_glob.unwrap().contains(s)),
        c.services_glob is Some ==> finalized(c).services_glob.unwrap().contains("/rosapi/*"@),
        c.services_glob is None ==> finalized(c).services_glob is None,
        c.topics_glob is None ==> finalized(c).topics_pub_glob == c.topics_pub_glob,
{
    if let Some(legacy) = c.topics_glob {
        if let Some(list) = c.topics_pub_glob {
            lemma_append_contains(list, legacy, s);
        }
        if let Some(list) = c.topics_sub_glob {
            lemma_append_contains(list, legacy, s);
        }
    }
    if let Some(list) = c.services_glob {
        let rosapi = seq!["/rosapi/*"@];
        assert(rosapi[0] == "/rosapi/*"@);
        lemma_append_contains(list, rosapi, "/rosapi/*"@);
    }
}

/// A list keeps what it holds at its front when others are added, and no pattern is added that
/// is there already: each stands once more than before at most.
pub proof fn adding_patterns_keeps_the_list(list: Seq<Seq<char>>, extra: Seq<Seq<char>>)
    ensures
        ({
            let done = append_new(list, extra);
            &&& done.len() >= list.len()
            &&& done.take(list.len() as int) == list
            &&& forall|i: int, j: int|
                0 <= i < j && list.len() <= j < done.len() ==> #[trigger] done[i]
                    != #[trigger] done[j]
            &&& forall|s: Seq<char>| #[trigger]
                done.contains(s) <==> list.contains(s) || extra.contains(s)
        }),
    decreases extra.len(),
{
    let done = append_new(list, extra);
    if extra.len() > 0 {
        let first = append_new(list, extra.drop_last());
        adding_patterns_keeps_the_list(list, extra.drop_last());
        assert(done.take(list.len() as int) =~= first.take(list.len() as int));
        assert forall|i: int, j: int|
            0 <= i < j && list.len() <= j < done.len() implies #[trigger] done[i]
            != #[trigger] done[j] by {
            if j == first.len() {
                assert(done[i] == first[i]);
                assert(first.contains(first[i]));
            } else {
                assert(done[i] == first[i] && done[j] == first[j]);
            }
        }
    } else {
        assert(done.take(list.len() as int) =~= list);
    }
    assert forall|s: Seq<char>| #[trigger]
        done.contains(s) <==> list.contains(s) || extra.contains(s) by {
        lemma_append_contains(list, extra, s);
    }
}

/// Finalizing brings no other patterns into a list than the legacy ones and `/rosapi/*`, and
/// changes nothing else.
pub proof fn finalizing_adds_nothing_else(c: ConfigModel, s: Seq<char>)
    ensures
        ({
            let f = finalized(c);
            let legacy = c.topics_glob matches Some(l) && l.contains(s);
            &&& f.topics_pub_glob matches Some(l) ==> (l.contains(s) ==> legacy || (
            c.topics_pub_glob matches Some(own) && own.contains(s)))
            &&& f.topics_sub_glob matches Some(l) ==> (l.contains(s) ==> legacy || (
            c.topics_sub_glob matches Some(own) && own.contains(s)))
            &&& f.services_glob matches Some(l) ==> (l.contains(s) ==> s == "/rosapi/*"@ || (
            c.services_glob matches Some(own) && own.contains(s)))
            &&& c.topics_glob is None ==> f.topics_sub_glob == c.topics_sub_glob
            &&& f == (ConfigModel {
                topics_pub_glob: f.topics_pub_glob,
                topics_sub_glob: f.topics_sub_glob,
                services_glob: f.services_glob,
                ..c
            })
        }),
{
    if let Some(l) = c.topics_glob {
        if let Some(own) = c.topics_pub_glob {
            lemma_append_contains(own, l, s);
        }
        if let Some(own) = c.topics_sub_glob {
            lemma_append_contains(own, l, s);
        }
    }
    if let Some(own) = c.services_glob {
        lemma_append_contains(own, seq!["/rosapi/*"@], s);
    }
}

} // verus!
