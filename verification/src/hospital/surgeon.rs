//! Starting a tunnel and writing its address into the configuration.
use vstd::prelude::*;

use crate::text::{
    chars_of, contains_chars, contains_seq, join_fields, join_quotes, lemma_join_split,
    lemma_split_fields_free, lemma_split_join, lemma_split_nonempty, lowercase, lowercase_text,
    all_ascii, free_of, lemma_ascii_lowercase_plain, lowercase_keeps_plain, no_upper, occurs_at,
    quote_free, remove_all, remove_pattern, same_chars, split_fields, split_quotes, string_of,
    views,
};

verus! {

/// How many health checks a new tunnel gets to come up.
pub const TUNNEL_CHECKS: u32 = 10;

/// The pause after a failed health check of a new tunnel, in seconds.
pub const CHECK_PAUSE_SECS: u64 = 3;

/// What goes before the local port in the address that the tunnel
/// forwards to.
pub const LOCAL_HOST_PREFIX: &'static str = "localhost:";

/// The address that the tunnel forwards to: the local host at `port`.
pub fn forwarding_address(port: &str) -> (address: String)
    ensures
        address@ == LOCAL_HOST_PREFIX@ + port@,
{
    let mut address = String::from_str(LOCAL_HOST_PREFIX);
    address.append(port);
    address
}

/// What the tunnel session's listener found on its command channel.
pub enum CommandReceipt {
    /// A command arrived.
    Message,
    /// No command is waiting.
    Empty,
    /// Commands were missed.
    Lagged,
    /// The channel is closed.
    Closed,
}

/// What the tunnel session's listener does next.
pub enum ListenerAction {
    /// Close the session and stop listening.
    CloseSession,
    /// Stop listening, leaving the session open.
    Stop,
    /// Look at the channel again.
    KeepListening,
}

/// Decides what the listener does: any command closes the session; a
/// closed channel ends the listening; otherwise it keeps listening.
pub fn on_command(receipt: CommandReceipt) -> (action: ListenerAction)
    ensures
        action == (match receipt {
            CommandReceipt::Message => ListenerAction::CloseSession,
            CommandReceipt::Closed => ListenerAction::Stop,
            _ => ListenerAction::KeepListening,
        }),
{
    match receipt {
        CommandReceipt::Message => ListenerAction::CloseSession,
        CommandReceipt::Closed => ListenerAction::Stop,
        CommandReceipt::Empty => ListenerAction::KeepListening,
        CommandReceipt::Lagged => ListenerAction::KeepListening,
    }
}

/// Whether a failure of the tunnel's forwarding is fatal: all are but the
/// one that says the connection is gone.
pub fn forward_failure_is_fatal(not_connected: bool) -> (fatal: bool)
    ensures
        fatal == !not_connected,
{
    !not_connected
}

/// The marker that a configuration key names an endpoint by.
pub open spec fn endpoint_marker() -> Seq<char> {
    seq!['E', 'N', 'D', 'P', 'O', 'I', 'N', 'T']
}

/// The suffix that is cut from a key to get the endpoint's path.
pub open spec fn endpoint_suffix() -> Seq<char> {
    seq!['_', 'E', 'N', 'D', 'P', 'O', 'I', 'N', 'T']
}

/// The path of the key whose value is the tunnel address itself.
pub open spec fn firelink_path() -> Seq<char> {
    seq!['F', 'I', 'R', 'E', 'L', 'I', 'N', 'K']
}

/// The field names an endpoint.
pub open spec fn names_endpoint(field: Seq<char>) -> bool {
    contains_seq(field, endpoint_marker())
}

/// The address written for the endpoint key `key`: the tunnel address
/// itself for the `FIRELINK` key, else the address, a slash and the key's
/// path in lower case.
pub open spec fn endpoint_address(heart: Seq<char>, key: Seq<char>) -> Seq<char> {
    let path = remove_all(key, endpoint_suffix());
    if path == firelink_path() {
        heart
    } else {
        heart + seq!['/'] + lowercase_text(path)
    }
}

/// Field `k` is the value of the endpoint key six fields before it, and no
/// later field up to `k` names an endpoint.
pub open spec fn replaced_at(fields: Seq<Seq<char>>, k: int) -> bool {
    &&& 6 <= k < fields.len()
    &&& names_endpoint(fields[k - 6])
    &&& forall|j: int| k - 6 < j <= k ==> !names_endpoint(#[trigger] fields[j])
}

/// Field `k` after the tunnel address has been written in.
pub open spec fn healed_field(fields: Seq<Seq<char>>, heart: Seq<char>, k: int) -> Seq<char> {
    if replaced_at(fields, k) {
        endpoint_address(heart, fields[k - 6])
    } else {
        fields[k]
    }
}

/// All fields after the tunnel address has been written in.
pub open spec fn healed_fields(fields: Seq<Seq<char>>, heart: Seq<char>) -> Seq<Seq<char>> {
    Seq::new(fields.len(), |k: int| healed_field(fields, heart, k))
}

/// Every field that names an endpoint has a field six places after it.
pub open spec fn heart_fits(fields: Seq<Seq<char>>) -> bool {
    forall|i: int| 0 <= i < fields.len() && names_endpoint(#[trigger] fields[i]) ==> i + 6 < fields.len()
}

/// The configuration text with the tunnel address written into every
/// endpoint value.
pub open spec fn inserted_heart(heart: Seq<char>, skeleton: Seq<char>) -> Seq<char> {
    join_quotes(healed_fields(split_quotes(skeleton), heart))
}

/// A copy of the characters.
fn copy_chars(v: &Vec<char>) -> (out: Vec<char>)
    ensures
        out@ == v@,
{
    let mut out: Vec<char> = Vec::new();
    let mut k: usize = 0;
    while k < v.len()
        invariant
            k <= v.len(),
            out@ == v@.take(k as int),
        decreases v.len() - k,
    {
        out.push(v[k]);
        assert(v@.take(k + 1) =~= v@.take(k as int).push(v@[k as int]));
        k = k + 1;
    }
    assert(v@.take(v.len() as int) =~= v@);
    out
}

/// The address written for the endpoint key `key`.
fn address_for(heart: &Vec<char>, key: &Vec<char>) -> (out: Vec<char>)
    ensures
        out@ == endpoint_address(heart@, key@),
        lowercase_keeps_plain(remove_all(key@, endpoint_suffix())),
{
    let suffix: Vec<char> = vec!['_', 'E', 'N', 'D', 'P', 'O', 'I', 'N', 'T'];
    let firelink: Vec<char> = vec!['F', 'I', 'R', 'E', 'L', 'I', 'N', 'K'];
    assert(suffix@ =~= endpoint_suffix());
    assert(firelink@ =~= firelink_path());
    let path = remove_pattern(key, &suffix);
    if !same_chars(&path, &firelink) {
        let path_text = string_of(&path);
        let lower_text = lowercase(path_text.as_str());
        let lower = chars_of(lower_text.as_str());
        let mut out = copy_chars(heart);
        out.push('/');
        let mut k: usize = 0;
        let ghost start = out@;
        while k < lower.len()
            invariant
                k <= lower.len(),
                out@ == start + lower@.take(k as int),
            decreases lower.len() - k,
        {
            out.push(lower[k]);
            assert(lower@.take(k + 1) =~= lower@.take(k as int).push(lower@[k as int]));
            k = k + 1;
        }
        assert(lower@.take(lower.len() as int) =~= lower@);
        out
    } else {
        proof {
            assert(all_ascii(firelink_path()));
            lemma_ascii_lowercase_plain(firelink_path());
        }
        copy_chars(heart)
    }
}

/// Whether every field of `skeleton` that names an endpoint has a field six
/// places after it, so that `insert_heart` can write the address there.
pub fn heart_fits_skeleton(skeleton: &str) -> (fits: bool)
    ensures
        fits == heart_fits(split_quotes(skeleton@)),
{
    let chars = chars_of(skeleton);
    let bits = split_fields(&chars, '"');
    let marker: Vec<char> = vec!['E', 'N', 'D', 'P', 'O', 'I', 'N', 'T'];
    assert(marker@ =~= endpoint_marker());
    let size = bits.len();
    let ghost fields = views(bits@);
    let mut index: usize = 0;
    while index < size
        invariant
            size == bits.len(),
            fields == views(bits@),
            fields == split_quotes(skeleton@),
            marker@ == endpoint_marker(),
            index <= size,
            forall|i: int| 0 <= i < index && names_endpoint(#[trigger] fields[i]) ==> i + 6 < size,
        decreases size - index,
    {
        if contains_chars(&bits[index], &marker) {
            assert(names_endpoint(fields[index as int]));
            if size - index <= 6 {
                assert(!heart_fits(fields));
                return false;
            }
        }
        index = index + 1;
    }
    true
}

/// Writes the tunnel address `heart` into the configuration text
/// `skeleton`. The text is cut into fields at double quotes; for each field
/// that names an endpoint (holds `ENDPOINT`), the field six places later,
/// its value, becomes the address: the address itself for the `FIRELINK`
/// key, else the address, a slash and the key without `_ENDPOINT` in lower
/// case. Where a later key falls within those six fields, the later key
/// takes over. The fields are joined again with double quotes.
pub fn insert_heart(heart: String, skeleton: String) -> (out: String)
    requires
        heart_fits(split_quotes(skeleton@)),
    ensures
        out@ == inserted_heart(heart@, skeleton@),
        plain_lowercase_keys(skeleton@),
{
    let chars = chars_of(skeleton.as_str());
    let bits = split_fields(&chars, '"');
    let heart_chars = chars_of(heart.as_str());
    let marker: Vec<char> = vec!['E', 'N', 'D', 'P', 'O', 'I', 'N', 'T'];
    assert(marker@ =~= endpoint_marker());
    let size = bits.len();
    let ghost fields = views(bits@);
    let ghost h = heart@;
    let mut body: Vec<Vec<char>> = Vec::new();
    let mut k: usize = 0;
    while k < size
        invariant
            k <= size,
            body.len() == k,
            forall|j: int| 0 <= j < k ==> (#[trigger] body@[j])@ == Seq::<char>::empty(),
        decreases size - k,
    {
        body.push(Vec::new());
        k = k + 1;
    }
    let mut control: Option<usize> = None;
    let mut index: usize = 0;
    while index < size
        invariant
            size == bits.len(),
            fields == views(bits@),
            fields == split_quotes(skeleton@),
            fields.len() == size,
            heart_fits(fields),
            forall|i: int|
                0 <= i < index && names_endpoint(#[trigger] fields[i]) ==> lowercase_keeps_plain(
                    remove_all(fields[i], endpoint_suffix()),
                ),
            h == heart_chars@,
            marker@ == endpoint_marker(),
            index <= size,
            body.len() == size,
            control matches Some(p) ==> {
                &&& p < index <= p + 6
                &&& names_endpoint(fields[p as int])
                &&& forall|j: int| p < j < index ==> !names_endpoint(#[trigger] fields[j])
            },
            control is None ==> forall|p: int|
                0 <= p < index && index <= p + 6 ==> !names_endpoint(#[trigger] fields[p]),
            forall|j: int| 0 <= j < index ==> (#[trigger] body@[j])@ == healed_field(fields, h, j),
            forall|j: int|
                index <= j < size ==> (#[trigger] body@[j])@ == (if 6 <= j && j - 6 < index
                    && names_endpoint(fields[j - 6]) {
                    endpoint_address(h, fields[j - 6])
                } else {
                    Seq::<char>::empty()
                }),
        decreases size - index,
    {
        let bit = &bits[index];
        assert(bit@ == fields[index as int]);
        if contains_chars(bit, &marker) {
            let address = address_for(&heart_chars, bit);
            control = Some(index);
            body.set(index + 6, address);
            body.set(index, copy_chars(bit));
        }
        if control.is_none() {
            body.set(index, copy_chars(bit));
        }
        if let Some(previous) = control {
            if previous + 6 == index {
                control = None;
            } else {
                body.set(index, copy_chars(bit));
            }
        }
        proof {
            let i = index as int;
            assert(body@[i]@ == healed_field(fields, h, i)) by {
                if names_endpoint(fields[i]) {
                    assert(!replaced_at(fields, i));
                } else if replaced_at(fields, i) {
                } else {
                }
            }
        }
        index = index + 1;
    }
    let joined = join_fields(&body, '"');
    assert(views(body@) =~= healed_fields(fields, h));
    string_of(&joined)
}

/// A configuration text in which no field names an endpoint comes back
/// unchanged.
pub proof fn law_plain_skeleton_unchanged(heart: Seq<char>, skeleton: Seq<char>)
    requires
        forall|i: int|
            0 <= i < split_quotes(skeleton).len() ==> !names_endpoint(
                #[trigger] split_quotes(skeleton)[i],
            ),
    ensures
        inserted_heart(heart, skeleton) == skeleton,
{
    let fields = split_quotes(skeleton);
    assert forall|k: int| 0 <= k < fields.len() implies #[trigger] healed_field(fields, heart, k)
        == fields[k] by {
        if replaced_at(fields, k) {
            assert(names_endpoint(fields[k - 6]));
        }
    }
    assert(healed_fields(fields, heart) =~= fields);
    lemma_join_split(skeleton, '"');
}

/// When no address written in holds a double quote, the result splits
/// into exactly the healed fields: as many fields as the configuration
/// text had, each endpoint value replaced and every other field unchanged.
pub proof fn law_fields_after_insert(heart: Seq<char>, skeleton: Seq<char>)
    requires
        forall|i: int|
            0 <= i < split_quotes(skeleton).len() && names_endpoint(
                #[trigger] split_quotes(skeleton)[i],
            ) ==> quote_free(endpoint_address(heart, split_quotes(skeleton)[i])),
    ensures
        split_quotes(inserted_heart(heart, skeleton)) == healed_fields(split_quotes(skeleton), heart),
{
    let fields = split_quotes(skeleton);
    let healed = healed_fields(fields, heart);
    lemma_split_nonempty(skeleton, '"');
    lemma_split_fields_free(skeleton, '"');
    assert forall|k: int| 0 <= k < healed.len() implies quote_free(#[trigger] healed[k]) by {
        if replaced_at(fields, k) {
            assert(names_endpoint(fields[k - 6]));
        }
    }
    lemma_split_join(healed, '"');
}

/// Removing a pattern keeps out every character that was not there.
pub proof fn lemma_remove_all_free(s: Seq<char>, pattern: Seq<char>, c: char)
    requires
        free_of(s, c),
    ensures
        free_of(remove_all(s, pattern), c),
    decreases s.len(),
{
    if s.len() > 0 {
        if pattern.len() > 0 && occurs_at(s, pattern, 0) {
            let rest = s.skip(pattern.len() as int);
            assert(free_of(rest, c)) by {
                assert forall|i: int| 0 <= i < rest.len() implies rest[i] != c by {
                    assert(rest[i] == s[i + pattern.len()]);
                }
            }
            lemma_remove_all_free(rest, pattern, c);
        } else {
            let rest = s.drop_first();
            assert(free_of(rest, c)) by {
                assert forall|i: int| 0 <= i < rest.len() implies rest[i] != c by {
                    assert(rest[i] == s[i + 1]);
                }
            }
            lemma_remove_all_free(rest, pattern, c);
            let out = seq![s[0]] + remove_all(rest, pattern);
            assert forall|i: int| 0 <= i < out.len() implies out[i] != c by {
                if i > 0 {
                    assert(out[i] == remove_all(rest, pattern)[i - 1]);
                }
            }
        }
    }
}

/// The marker cannot start in a text without it and run into a tail
/// without upper-case letters.
pub proof fn lemma_no_marker_with_tail(a: Seq<char>, tail: Seq<char>)
    requires
        !contains_seq(a, endpoint_marker()),
        no_upper(tail),
    ensures
        !contains_seq(a + tail, endpoint_marker()),
{
    let m = endpoint_marker();
    let s = a + tail;
    assert forall|at: int| !occurs_at(s, m, at) by {
        if occurs_at(s, m, at) {
            if at + 8 <= a.len() {
                assert(a.subrange(at, at + 8) =~= s.subrange(at, at + 8));
                assert(occurs_at(a, m, at));
            } else {
                assert(s.subrange(at, at + 8)[7] == m[7]);
                assert(s[at + 7] == 'T');
                assert(s[at + 7] == tail[at + 7 - a.len()]);
            }
        }
    }
}

/// The address written for an endpoint key holds no double quote when the
/// tunnel address holds none, and does not name an endpoint when the
/// tunnel address does not, given that the lower-case form of the key's
/// path keeps what `str::to_lowercase` is stated to keep.
pub proof fn lemma_address_plain(heart: Seq<char>, key: Seq<char>)
    requires
        quote_free(heart),
        quote_free(key),
        lowercase_keeps_plain(remove_all(key, endpoint_suffix())),
    ensures
        quote_free(endpoint_address(heart, key)),
        !contains_seq(heart, endpoint_marker()) ==> !names_endpoint(endpoint_address(heart, key)),
{
    let path = remove_all(key, endpoint_suffix());
    lemma_remove_all_free(key, endpoint_suffix(), '"');
    if path != firelink_path() {
        let lower = lowercase_text(path);
        let tail = seq!['/'] + lower;
        assert(no_upper(tail)) by {
            assert forall|i: int| 0 <= i < tail.len() implies !('A' <= #[trigger] tail[i] <= 'Z') by {
                if i > 0 {
                    assert(tail[i] == lower[i - 1]);
                }
            }
        }
        if !contains_seq(heart, endpoint_marker()) {
            lemma_no_marker_with_tail(heart, tail);
        }
        assert(endpoint_address(heart, key) =~= heart + tail);
        let out = heart + tail;
        assert forall|i: int| 0 <= i < out.len() implies out[i] != '"' by {
            if i > heart.len() {
                assert(out[i] == lower[i - heart.len() - 1]);
            }
        }
    }
}

/// The lower-case forms of the paths of the endpoint keys of `skeleton`
/// keep what `str::to_lowercase` is stated to keep. `insert_heart` ensures
/// it of every configuration text it is given, and ASCII paths always
/// keep it.
pub open spec fn plain_lowercase_keys(skeleton: Seq<char>) -> bool {
    forall|i: int|
        0 <= i < split_quotes(skeleton).len() && names_endpoint(#[trigger] split_quotes(skeleton)[i])
            ==> lowercase_keeps_plain(remove_all(split_quotes(skeleton)[i], endpoint_suffix()))
}

/// Every endpoint key with an ASCII path keeps what the lower-case form
/// is stated to keep.
pub proof fn lemma_ascii_keys_plain(skeleton: Seq<char>)
    requires
        forall|i: int|
            0 <= i < split_quotes(skeleton).len() && names_endpoint(
                #[trigger] split_quotes(skeleton)[i],
            ) ==> all_ascii(remove_all(split_quotes(skeleton)[i], endpoint_suffix())),
    ensures
        plain_lowercase_keys(skeleton),
{
    assert forall|i: int|
        0 <= i < split_quotes(skeleton).len() && names_endpoint(
            #[trigger] split_quotes(skeleton)[i],
        ) implies lowercase_keeps_plain(remove_all(split_quotes(skeleton)[i], endpoint_suffix())) by {
        lemma_ascii_lowercase_plain(remove_all(split_quotes(skeleton)[i], endpoint_suffix()));
    }
}

/// With a tunnel address that holds no double quote, the result splits into exactly as many fields as the configuration text,
/// and only the value fields of endpoint keys differ: each is the address
/// written for its key.
pub proof fn law_field_count_after_insert(heart: Seq<char>, skeleton: Seq<char>)
    requires
        quote_free(heart),
        plain_lowercase_keys(skeleton),
    ensures
        split_quotes(inserted_heart(heart, skeleton)).len() == split_quotes(skeleton).len(),
        split_quotes(inserted_heart(heart, skeleton)) == healed_fields(split_quotes(skeleton), heart),
        forall|j: int|
            0 <= j < split_quotes(skeleton).len() && !replaced_at(split_quotes(skeleton), j)
                ==> #[trigger] split_quotes(inserted_heart(heart, skeleton))[j] == split_quotes(
                skeleton,
            )[j],
{
    let fields = split_quotes(skeleton);
    lemma_split_fields_free(skeleton, '"');
    assert forall|i: int|
        0 <= i < fields.len() && names_endpoint(#[trigger] fields[i]) implies quote_free(
        endpoint_address(heart, fields[i])) by {
        lemma_address_plain(heart, fields[i]);
    }
    law_fields_after_insert(heart, skeleton);
}

/// Writing a second address over the first leaves only the second: when
/// the first address holds no double quote and no `ENDPOINT`, writing
/// `second` into the text that already holds `first` gives what writing
/// `second` alone gives.
pub proof fn law_last_address_wins(first: Seq<char>, second: Seq<char>, skeleton: Seq<char>)
    requires
        quote_free(first),
        !contains_seq(first, endpoint_marker()),
        plain_lowercase_keys(skeleton),
    ensures
        inserted_heart(second, inserted_heart(first, skeleton)) == inserted_heart(second, skeleton),
{
    let fields = split_quotes(skeleton);
    let healed = healed_fields(fields, first);
    lemma_split_fields_free(skeleton, '"');
    assert forall|i: int|
        0 <= i < fields.len() && names_endpoint(#[trigger] fields[i]) implies !names_endpoint(
        endpoint_address(first, fields[i])) && quote_free(endpoint_address(first, fields[i])) by {
        lemma_address_plain(first, fields[i]);
    }
    law_fields_after_insert(first, skeleton);
    assert(split_quotes(inserted_heart(first, skeleton)) == healed);
    assert forall|j: int| 0 <= j < fields.len() implies names_endpoint(#[trigger] healed[j])
        == names_endpoint(fields[j]) by {
        if replaced_at(fields, j) {
            assert(names_endpoint(fields[j - 6]));
            assert(!names_endpoint(fields[j]));
        }
    }
    assert forall|k: int| 0 <= k < fields.len() implies #[trigger] replaced_at(healed, k)
        == replaced_at(fields, k) by {
        if 6 <= k {
            assert(names_endpoint(healed[k - 6]) == names_endpoint(fields[k - 6]));
            if forall|j: int| k - 6 < j <= k ==> !names_endpoint(#[trigger] healed[j]) {
                assert forall|j: int| k - 6 < j <= k implies !names_endpoint(
                    #[trigger] fields[j],
                ) by {
                    assert(names_endpoint(healed[j]) == names_endpoint(fields[j]));
                }
            }
            if forall|j: int| k - 6 < j <= k ==> !names_endpoint(#[trigger] fields[j]) {
                assert forall|j: int| k - 6 < j <= k implies !names_endpoint(
                    #[trigger] healed[j],
                ) by {
                    assert(names_endpoint(healed[j]) == names_endpoint(fields[j]));
                }
            }
        }
    }
    assert forall|k: int| 0 <= k < fields.len() implies #[trigger] healed_field(healed, second, k)
        == healed_field(fields, second, k) by {
        if replaced_at(fields, k) {
            assert(names_endpoint(fields[k - 6]));
            assert(!replaced_at(fields, k - 6));
            assert(healed[k - 6] == fields[k - 6]);
        }
    }
    assert(healed_fields(healed, second) =~= healed_fields(fields, second));
}

/// Writing the same address twice changes nothing the second time, under
/// the conditions of `law_last_address_wins`.
pub proof fn law_insert_heart_idempotent(heart: Seq<char>, skeleton: Seq<char>)
    requires
        quote_free(heart),
        !contains_seq(heart, endpoint_marker()),
        plain_lowercase_keys(skeleton),
    ensures
        inserted_heart(heart, inserted_heart(heart, skeleton)) == inserted_heart(heart, skeleton),
{
    law_last_address_wins(heart, heart, skeleton);
}

/// Whether the address can be written depends only on where the endpoint
/// keys stand: replacing any field by one that names an endpoint just when
/// the old one did (an empty value by a full one, say) does not change it.
pub proof fn law_heart_fits_by_positions(fields: Seq<Seq<char>>, k: int, replacement: Seq<char>)
    requires
        0 <= k < fields.len(),
        names_endpoint(replacement) == names_endpoint(fields[k]),
    ensures
        heart_fits(fields.update(k, replacement)) == heart_fits(fields),
{
    let updated = fields.update(k, replacement);
    assert forall|i: int| 0 <= i < fields.len() implies names_endpoint(#[trigger] updated[i])
        == names_endpoint(fields[i]) by {
        if i == k {
        }
    }
    if heart_fits(fields) {
        assert forall|i: int|
            0 <= i < updated.len() && names_endpoint(#[trigger] updated[i]) implies i + 6
            < updated.len() by {
            assert(names_endpoint(fields[i]));
        }
    }
    if heart_fits(updated) {
        assert forall|i: int|
            0 <= i < fields.len() && names_endpoint(#[trigger] fields[i]) implies i + 6
            < fields.len() by {
            assert(names_endpoint(updated[i]));
        }
    }
}

/// A text in which no field names an endpoint always fits, and one whose
/// endpoint key stands among the last six fields never does.
pub proof fn law_heart_fits_edges(fields: Seq<Seq<char>>, k: int)
    ensures
        (forall|i: int| 0 <= i < fields.len() ==> !names_endpoint(#[trigger] fields[i]))
            ==> heart_fits(fields),
        0 <= k < fields.len() && fields.len() <= k + 6 && names_endpoint(fields[k]) ==> !heart_fits(
            fields,
        ),
{
}

} // verus!
