//! Trust in executable skills: a skill's command runs only if the skill is the
//! user's own, or the exact contents of its file have been approved.

use vstd::prelude::*;
use crate::cli::PermissionMode;
use crate::prompt::{PermissionDecision, PermissionDetail, PromptRequest};
use crate::text::{self, chars_of, path_join, scan_char, split_once_at, string_of_range, text_eq};

verus! {

/// The SHA-256 digest of some bytes.
pub uninterp spec fn sha256_digest(bytes: Seq<u8>) -> Seq<u8>;

/// Calls `Digest::digest` of `sha2::Sha256`: thirty-two bytes that depend on
/// the input alone. Which bytes they are is only named here.
#[verifier::external_body]
fn sha256(bytes: &[u8]) -> (r: Vec<u8>)
    ensures
        r@ == sha256_digest(bytes@),
        r@.len() == 32,
{
    <sha2::Sha256 as sha2::Digest>::digest(bytes).to_vec()
}

/// The lower-case hexadecimal digit of a number below sixteen.
pub open spec fn hex_digit(n: int) -> char {
    if n < 10 {
        text::digit(n)
    } else if n == 10 {
        'a'
    } else if n == 11 {
        'b'
    } else if n == 12 {
        'c'
    } else if n == 13 {
        'd'
    } else if n == 14 {
        'e'
    } else {
        'f'
    }
}

/// Bytes in lower-case hexadecimal, two digits each.
pub open spec fn hex(bytes: Seq<u8>) -> Seq<char>
    decreases bytes.len(),
{
    if bytes.len() == 0 {
        Seq::empty()
    } else {
        hex(bytes.drop_last()).push(hex_digit(bytes.last() as int / 16)).push(
            hex_digit(bytes.last() as int % 16),
        )
    }
}

/// Whether `c` is a lower-case hexadecimal digit.
pub open spec fn lower_hex(c: char) -> bool {
    ('0' <= c <= '9') || ('a' <= c <= 'f')
}

/// What a content hash looks like: sixty-four lower-case hexadecimal digits.
pub open spec fn is_hash(s: Seq<char>) -> bool {
    s.len() == 64 && forall|i: int| 0 <= i < s.len() ==> lower_hex(#[trigger] s[i])
}

/// The content hash of a skill file: its SHA-256 digest in hexadecimal.
pub open spec fn content_hash(contents: Seq<char>) -> Seq<char> {
    hex(sha256_digest(vstd::utf8::encode_utf8(contents)))
}

fn hex_char(n: u8) -> (r: char)
    requires
        n < 16,
    ensures
        r == hex_digit(n as int),
        lower_hex(r),
{
    if n == 0 {
        '0'
    } else if n == 1 {
        '1'
    } else if n == 2 {
        '2'
    } else if n == 3 {
        '3'
    } else if n == 4 {
        '4'
    } else if n == 5 {
        '5'
    } else if n == 6 {
        '6'
    } else if n == 7 {
        '7'
    } else if n == 8 {
        '8'
    } else if n == 9 {
        '9'
    } else if n == 10 {
        'a'
    } else if n == 11 {
        'b'
    } else if n == 12 {
        'c'
    } else if n == 13 {
        'd'
    } else if n == 14 {
        'e'
    } else {
        'f'
    }
}

fn hex_of(bytes: &Vec<u8>) -> (r: String)
    ensures
        r@ == hex(bytes@),
        r@.len() == 2 * bytes@.len(),
        forall|i: int| 0 <= i < r@.len() ==> lower_hex(#[trigger] r@[i]),
{
    let mut out = String::new();
    let mut i: usize = 0;
    while i < bytes.len()
        invariant
            i <= bytes.len(),
            out@ == hex(bytes@.take(i as int)),
            out@.len() == 2 * i,
            forall|j: int| 0 <= j < out@.len() ==> lower_hex(#[trigger] out@[j]),
        decreases bytes.len() - i,
    {
        let b: u8 = bytes[i];
        out.push(hex_char(b / 16));
        out.push(hex_char(b % 16));
        i += 1;
        assert(bytes@.take(i as int).drop_last() =~= bytes@.take(i - 1));
    }
    assert(bytes@.take(bytes@.len() as int) =~= bytes@);
    out
}

/// The content hash of a skill file.
pub fn hash_skill_contents(contents: &str) -> (r: String)
    ensures
        r@ == content_hash(contents@),
        is_hash(r@),
{
    let digest = sha256(contents.as_bytes());
    hex_of(&digest)
}

/// The pieces of `s` between the `c`s.
pub open spec fn split_on(s: Seq<char>, c: char) -> Seq<Seq<char>>
    decreases s.len(),
{
    let i = text::first_index(s, c) as int;
    if i >= s.len() {
        seq![s]
    } else {
        seq![s.take(i)] + split_on(s.skip(i + 1), c)
    }
}

/// Whether the piece at place `i` of a path names something: empty pieces do
/// not, nor does a dot that is not the first piece.
pub open spec fn names_something(piece: Seq<char>, i: int) -> bool {
    piece.len() > 0 && (piece != seq!['.'] || i == 0)
}

/// The pieces of a path that name something.
pub open spec fn kept_pieces(pieces: Seq<Seq<char>>) -> Seq<Seq<char>>
    decreases pieces.len(),
{
    if pieces.len() == 0 {
        Seq::empty()
    } else if names_something(pieces.last(), pieces.len() - 1) {
        kept_pieces(pieces.drop_last()).push(pieces.last())
    } else {
        kept_pieces(pieces.drop_last())
    }
}

/// What a path names: whether it starts at the root, and its components.
/// Doubled or trailing slashes make no difference.
pub open spec fn path_key(path: Seq<char>) -> (bool, Seq<Seq<char>>) {
    (path.len() > 0 && path[0] == '/', kept_pieces(split_on(path, '/')))
}

fn path_pieces(path: &str) -> (r: (bool, Vec<String>))
    ensures
        (r.0, text::texts(r.1@)) == path_key(path@),
{
    let v = chars_of(path);
    let rooted = v.len() > 0 && v[0] == '/';
    let ghost all = split_on(path@, '/');
    let ghost mut seen: Seq<Seq<char>> = Seq::empty();
    let mut kept: Vec<String> = Vec::new();
    let mut first = true;
    let mut i: usize = 0;
    proof {
        assert(path@.skip(0) =~= path@);
        assert(seen + split_on(path@, '/') =~= all);
        assert(text::texts(kept@) =~= kept_pieces(seen));
    }
    loop
        invariant
            i <= v.len(),
            v@ == path@,
            all == split_on(path@, '/'),
            all == seen + split_on(path@.skip(i as int), '/'),
            first == (seen.len() == 0),
            text::texts(kept@) == kept_pieces(seen),
            rooted == path_key(path@).0,
        decreases v.len() - i,
    {
        let ghost rest = path@.skip(i as int);
        let j = scan_char(&v, i, '/');
        let piece = string_of_range(&v, i, j);
        let is_dot = j > i && j - i == 1 && v[i] == '.';
        let keep = j > i && (!is_dot || first);
        let ghost before = kept@;
        let ghost seen0 = seen;
        proof {
            text::lemma_first_index(rest, '/');
            assert(piece@ =~= rest.take(j - i));
            assert((piece@ == seq!['.']) == is_dot) by {
                if is_dot {
                    assert(piece@ =~= seq!['.']);
                }
                if piece@ == seq!['.'] {
                    assert(piece@.len() == 1);
                    assert(piece@[0] == '.');
                }
            }
            seen = seen.push(piece@);
            assert(seen.drop_last() =~= seen0);
        }
        if keep {
            kept.push(piece);
            proof {
                assert(text::texts(kept@) =~= text::texts(before).push(piece@));
            }
        }
        first = false;
        if j == v.len() {
            proof {
                assert(rest.take(j - i) =~= rest);
                assert(split_on(rest, '/') == seq![rest]);
                assert(all =~= seen);
            }
            return (rooted, kept);
        }
        proof {
            assert(rest.skip(j - i + 1) =~= path@.skip(j + 1));
            assert(all =~= seen + split_on(path@.skip(j + 1), '/'));
        }
        i = j + 1;
    }
}

/// Whether two paths name the same thing by their components.
pub fn same_path(a: &str, b: &str) -> (r: bool)
    ensures
        r == (path_key(a@) == path_key(b@)),
{
    let (x_rooted, x) = path_pieces(a);
    let (y_rooted, y) = path_pieces(b);
    if x_rooted != y_rooted || x.len() != y.len() {
        assert(text::texts(x@).len() == x@.len());
        assert(text::texts(y@).len() == y@.len());
        return false;
    }
    let mut i: usize = 0;
    while i < x.len()
        invariant
            i <= x.len(),
            x.len() == y.len(),
            path_key(a@) == (x_rooted, text::texts(x@)),
            path_key(b@) == (y_rooted, text::texts(y@)),
            x_rooted == y_rooted,
            forall|j: int| 0 <= j < i ==> #[trigger] text::texts(x@)[j] == text::texts(y@)[j],
        decreases x.len() - i,
    {
        assert(text::texts(x@)[i as int] == x@[i as int]@);
        assert(text::texts(y@)[i as int] == y@[i as int]@);
        if !text_eq(x[i].as_str(), y[i].as_str()) {
            return false;
        }
        i += 1;
    }
    assert(text::texts(x@) =~= text::texts(y@));
    true
}

/// An approval: a skill file and the contents it was approved with.
#[derive(Debug, PartialEq, Eq)]
pub struct TrustedSkill {
    pub path: String,
    pub hash: String,
}

impl Clone for TrustedSkill {
    fn clone(&self) -> (r: Self)
        ensures
            r == *self,
    {
        TrustedSkill { path: self.path.clone(), hash: self.hash.clone() }
    }
}

/// What an approval covers: a path, by its components, and a hash.
pub open spec fn trust_key(path: Seq<char>, hash: Seq<char>) -> (
    (bool, Seq<Seq<char>>),
    Seq<char>,
) {
    (path_key(path), hash)
}

/// The user's approvals, and the file that keeps them.
pub struct SkillTrustStore {
    path: String,
    entries: Vec<TrustedSkill>,
}

impl View for SkillTrustStore {
    type V = Set<((bool, Seq<Seq<char>>), Seq<char>)>;

    open spec fn view(&self) -> Set<((bool, Seq<Seq<char>>), Seq<char>)> {
        trust_set(self.list())
    }
}

/// What a list of approvals covers.
pub open spec fn trust_set(entries: Seq<TrustedSkill>) -> Set<
    ((bool, Seq<Seq<char>>), Seq<char>),
> {
    Set::new(
        |k: ((bool, Seq<Seq<char>>), Seq<char>)|
            exists|i: int|
                0 <= i < entries.len() && trust_key(
                    (#[trigger] entries[i]).path@,
                    entries[i].hash@,
                ) == k,
    )
}

impl SkillTrustStore {
    /// The file that keeps the approvals.
    pub closed spec fn file(self) -> Seq<char> {
        self.path@
    }

    /// The approvals, in the order in which they were recorded.
    pub closed spec fn list(self) -> Seq<TrustedSkill> {
        self.entries@
    }

    /// The store of a user's configuration directory, before its file has
    /// been read.
    pub fn new(config_dir: &str) -> (r: SkillTrustStore)
        ensures
            r.file() == text::join_path(config_dir@, "skill_trust.json"@),
            r.list() == Seq::<TrustedSkill>::empty(),
            r@ == Set::<((bool, Seq<Seq<char>>), Seq<char>)>::empty(),
    {
        let r = SkillTrustStore {
            path: path_join(config_dir, "skill_trust.json"),
            entries: Vec::new(),
        };
        assert(r@ =~= Set::<((bool, Seq<Seq<char>>), Seq<char>)>::empty());
        r
    }

    /// The store with what its file holds; a file that is missing or cannot
    /// be read holds nothing.
    pub fn load(config_dir: &str, entries: Option<Vec<TrustedSkill>>) -> (r: SkillTrustStore)
        ensures
            r.file() == text::join_path(config_dir@, "skill_trust.json"@),
            r.list() == (match entries {
                Some(e) => e@,
                None => Seq::empty(),
            }),
    {
        SkillTrustStore {
            path: path_join(config_dir, "skill_trust.json"),
            entries: match entries {
                Some(e) => e,
                None => Vec::new(),
            },
        }
    }

    /// The file that keeps the approvals.
    pub fn path(&self) -> (r: &str)
        ensures
            r@ == self.file(),
    {
        self.path.as_str()
    }

    /// The approvals, to be written to the file.
    pub fn entries(&self) -> (r: &Vec<TrustedSkill>)
        ensures
            r@ == self.list(),
    {
        &self.entries
    }

    /// Whether the skill at `skill_path` was approved with these contents.
    pub fn is_trusted(&self, skill_path: &str, hash: &str) -> (r: bool)
        ensures
            r == self@.contains(trust_key(skill_path@, hash@)),
    {
        let ghost key = trust_key(skill_path@, hash@);
        let mut i: usize = 0;
        while i < self.entries.len()
            invariant
                i <= self.entries.len(),
                key == trust_key(skill_path@, hash@),
                forall|j: int|
                    0 <= j < i ==> trust_key(
                        (#[trigger] self.entries@[j]).path@,
                        self.entries@[j].hash@,
                    ) != key,
            decreases self.entries.len() - i,
        {
            if text_eq(self.entries[i].hash.as_str(), hash) && same_path(
                self.entries[i].path.as_str(),
                skill_path,
            ) {
                assert(trust_key(self.entries@[i as int].path@, self.entries@[i as int].hash@)
                    == key);
                return true;
            }
            i += 1;
        }
        false
    }

    /// Records an approval behind those that are there. Recording it again
    /// changes nothing.
    pub fn grant(&mut self, skill_path: &str, hash: &str)
        ensures
            old(self)@.contains(trust_key(skill_path@, hash@)) ==> final(self).list() == old(
                self,
            ).list(),
            !old(self)@.contains(trust_key(skill_path@, hash@)) ==> {
                &&& final(self).list().len() == old(self).list().len() + 1
                &&& final(self).list().drop_last() == old(self).list()
                &&& final(self).list().last().path@ == skill_path@
                &&& final(self).list().last().hash@ == hash@
            },
            final(self)@ == old(self)@.insert(trust_key(skill_path@, hash@)),
            final(self).file() == old(self).file(),
    {
        let ghost before = self.entries@;
        let ghost key = trust_key(skill_path@, hash@);
        if !self.is_trusted(skill_path, hash) {
            let entry = TrustedSkill { path: skill_path.to_owned(), hash: hash.to_owned() };
            self.entries.push(entry);
            proof {
                let now = self.entries@;
                assert(now.drop_last() =~= before);
                assert forall|k: ((bool, Seq<Seq<char>>), Seq<char>)|
                    trust_set(now).contains(k) == (trust_set(before).contains(k) || k == key) by {
                    if trust_set(before).contains(k) {
                        let i = choose|i: int|
                            0 <= i < before.len() && trust_key(
                                (#[trigger] before[i]).path@,
                                before[i].hash@,
                            ) == k;
                        assert(now[i] == before[i]);
                    }
                    if k == key {
                        assert(now[now.len() - 1] == entry);
                    }
                    if trust_set(now).contains(k) {
                        let i = choose|i: int|
                            0 <= i < now.len() && trust_key((#[trigger] now[i]).path@, now[i].hash@)
                                == k;
                        if i < before.len() {
                            assert(before[i] == now[i]);
                        }
                    }
                }
            }
        }
        assert(self@ =~= old(self)@.insert(key));
    }
}

/// Where a skill was found.
#[derive(Debug, Clone, Copy, PartialEq, Eq, Structural)]
pub enum SkillScope {
    /// Among the user's own files.
    User,
    /// In the project.
    Project,
}

impl SkillScope {
    /// A scope's name.
    pub open spec fn label_spec(self) -> Seq<char> {
        match self {
            SkillScope::User => "user"@,
            SkillScope::Project => "project"@,
        }
    }

    /// A scope's name.
    pub fn label(self) -> (r: &'static str)
        ensures
            r@ == self.label_spec(),
    {
        match self {
            SkillScope::User => "user",
            SkillScope::Project => "project",
        }
    }
}

/// What the user is asked to consent to: the command exactly as it would run,
/// the skill it comes from, and the hash of that skill's contents.
#[derive(Debug, PartialEq, Eq)]
pub struct SkillConsentRequest {
    pub command: String,
    pub skill_path: String,
    pub scope: SkillScope,
    pub name: String,
    pub hash: String,
}

/// What came of asking for consent.
#[derive(Debug, Clone, Copy, PartialEq, Eq, Structural)]
pub enum ConsentOutcome {
    /// Run it, and record an approval of these contents.
    ApproveAndPersist,
    /// Run it this once, recording nothing.
    ApproveWithoutPersisting,
    /// Do not run it.
    Decline,
}

/// Something that can be asked for consent.
pub trait ConsentResolver {
    /// Answers a request for consent.
    fn resolve(&self, request: &SkillConsentRequest) -> ConsentOutcome;
}

/// What a permission mode consents to where there is nobody to ask.
pub open spec fn consent_by_mode(mode: PermissionMode) -> ConsentOutcome {
    match mode {
        PermissionMode::Bypass => ConsentOutcome::ApproveWithoutPersisting,
        _ => ConsentOutcome::Decline,
    }
}

/// What the user's answer to the skill prompt means.
pub open spec fn consent_by_answer(decision: PermissionDecision) -> ConsentOutcome {
    match decision {
        PermissionDecision::Allow => ConsentOutcome::ApproveWithoutPersisting,
        PermissionDecision::AllowAndRemember => ConsentOutcome::ApproveAndPersist,
        PermissionDecision::Deny => ConsentOutcome::Decline,
    }
}

/// Consent where there is nobody to ask: by the permission mode alone.
pub struct HeadlessConsentResolver {
    mode: PermissionMode,
}

impl HeadlessConsentResolver {
    /// The mode that decides.
    pub closed spec fn mode_spec(self) -> PermissionMode {
        self.mode
    }

    /// Consent by that mode.
    pub fn new(mode: PermissionMode) -> (r: HeadlessConsentResolver)
        ensures
            r.mode_spec() == mode,
    {
        HeadlessConsentResolver { mode }
    }

    /// What there is to say when a skill does not run for want of trust.
    pub fn decline_notice(request: &SkillConsentRequest) -> (r: String)
        ensures
            r@ == "skill not executed (untrusted): "@ + request.skill_path@ + " [run: "@
                + request.command@ + "]"@,
    {
        let mut notice = "skill not executed (untrusted): ".to_owned();
        notice.append(request.skill_path.as_str());
        notice.append(" [run: ");
        notice.append(request.command.as_str());
        notice.append("]");
        notice
    }
}

impl ConsentResolver for HeadlessConsentResolver {
    /// Only `Bypass` runs a skill, and it never records an approval.
    fn resolve(&self, request: &SkillConsentRequest) -> (r: ConsentOutcome)
        ensures
            r == consent_by_mode(self.mode_spec()),
            r == (if self.mode_spec() == PermissionMode::Bypass {
                ConsentOutcome::ApproveWithoutPersisting
            } else {
                ConsentOutcome::Decline
            }),
    {
        match self.mode {
            PermissionMode::Bypass => ConsentOutcome::ApproveWithoutPersisting,
            _ => ConsentOutcome::Decline,
        }
    }
}

/// What the user is shown about a skill: its command, its path and its scope.
pub fn consent_prompt(request: &SkillConsentRequest) -> (r: PromptRequest)
    ensures
        r.tool_name@ == "skill"@,
        r.detail matches PermissionDetail::Text(t) && t@ == "run: "@ + request.command@
            + "\nskill: "@ + request.skill_path@ + "\nscope: "@ + request.scope.label_spec(),
{
    let mut detail = "run: ".to_owned();
    detail.append(request.command.as_str());
    detail.append("\nskill: ");
    detail.append(request.skill_path.as_str());
    detail.append("\nscope: ");
    detail.append(request.scope.label());
    PromptRequest { tool_name: "skill".to_owned(), detail: PermissionDetail::Text(detail) }
}

/// What the user's answer to the skill prompt means: running once records
/// nothing, trusting this version does.
pub fn map_permission_decision(decision: PermissionDecision) -> (r: ConsentOutcome)
    ensures
        r == consent_by_answer(decision),
        r == (match decision {
            PermissionDecision::Allow => ConsentOutcome::ApproveWithoutPersisting,
            PermissionDecision::AllowAndRemember => ConsentOutcome::ApproveAndPersist,
            PermissionDecision::Deny => ConsentOutcome::Decline,
        }),
{
    match decision {
        PermissionDecision::Allow => ConsentOutcome::ApproveWithoutPersisting,
        PermissionDecision::AllowAndRemember => ConsentOutcome::ApproveAndPersist,
        PermissionDecision::Deny => ConsentOutcome::Decline,
    }
}

/// A skill approved beforehand on the command line, whatever its contents or
/// for one content hash only.
#[derive(Debug, PartialEq, Eq)]
pub struct AllowSkillEntry {
    pub name: String,
    pub hash: Option<String>,
}

fn is_hash_text(s: &str) -> (r: bool)
    ensures
        r == is_hash(s@),
{
    let v = chars_of(s);
    if v.len() != 64 {
        return false;
    }
    let mut i: usize = 0;
    while i < v.len()
        invariant
            i <= v.len(),
            v@ == s@,
            v@.len() == 64,
            forall|j: int| 0 <= j < i ==> lower_hex(#[trigger] s@[j]),
        decreases v.len() - i,
    {
        let c = v[i];
        if !(('0' <= c && c <= '9') || ('a' <= c && c <= 'f')) {
            assert(!lower_hex(s@[i as int]));
            return false;
        }
        i += 1;
    }
    true
}

impl AllowSkillEntry {
    /// What a value of the flag says: a name, or a name, an at sign and a
    /// content hash. An empty name or anything but a hash behind the at sign
    /// says nothing.
    pub open spec fn reading(value: Seq<char>) -> Option<(Seq<char>, Option<Seq<char>>)> {
        match text::split_once(value, '@') {
            None => if value.len() == 0 {
                None
            } else {
                Some((value, None))
            },
            Some((name, pin)) => if name.len() == 0 || !is_hash(pin) {
                None
            } else {
                Some((name, Some(pin)))
            },
        }
    }

    /// What is wrong with a value of the flag that cannot be read.
    pub open spec fn parse_error(value: Seq<char>) -> Seq<char> {
        if value.len() == 0 || value[0] == '@' {
            "a skill name must not be empty"@
        } else {
            "a pinned hash must be 64 lowercase hexadecimal characters"@
        }
    }

    /// Reads a value of the flag.
    pub fn parse(value: &str) -> (r: Result<AllowSkillEntry, String>)
        ensures
            match r {
                Ok(e) => Self::reading(value@) == Some((e.name@, text::opt_text(e.hash))),
                Err(m) => Self::reading(value@) is None && m@ == Self::parse_error(value@),
            },
    {
        match split_once_at(value, '@') {
            None => {
                if value.is_empty() {
                    Err("a skill name must not be empty".to_owned())
                } else {
                    Ok(AllowSkillEntry { name: value.to_owned(), hash: None })
                }
            },
            Some((name, pin)) => {
                if name.as_str().is_empty() {
                    Err("a skill name must not be empty".to_owned())
                } else if !is_hash_text(pin.as_str()) {
                    Err("a pinned hash must be 64 lowercase hexadecimal characters".to_owned())
                } else {
                    Ok(AllowSkillEntry { name, hash: Some(pin) })
                }
            },
        }
    }

    /// Whether the entry approves a skill of that name with that hash.
    pub open spec fn approves_spec(self, name: Seq<char>, hash: Seq<char>) -> bool {
        self.name@ == name && (self.hash is None || self.hash->0@ == hash)
    }

    /// Whether the entry approves a skill of that name with that hash.
    pub fn approves(&self, name: &str, hash: &str) -> (r: bool)
        ensures
            r == self.approves_spec(name@, hash@),
    {
        text_eq(self.name.as_str(), name) && match &self.hash {
            None => true,
            Some(pin) => text_eq(pin.as_str(), hash),
        }
    }
}

/// Whether some entry approves a skill of that name with that hash.
pub open spec fn pre_approved(
    allowed: Seq<AllowSkillEntry>,
    name: Seq<char>,
    hash: Seq<char>,
) -> bool {
    exists|i: int|
        0 <= i < allowed.len() && (#[trigger] allowed[i]).approves_spec(name, hash)
}

/// The answer to a request that some entry approves beforehand; without one
/// the request goes on to whoever is asked. Such an approval is never
/// recorded.
pub fn pre_approval(allowed: &Vec<AllowSkillEntry>, request: &SkillConsentRequest) -> (r: Option<
    ConsentOutcome,
>)
    ensures
        r is Some == pre_approved(allowed@, request.name@, request.hash@),
        r == (if exists|i: int|
            0 <= i < allowed@.len() && (#[trigger] allowed@[i]).approves_spec(
                request.name@,
                request.hash@,
            ) {
            Some(ConsentOutcome::ApproveWithoutPersisting)
        } else {
            None
        }),
{
    let mut i: usize = 0;
    while i < allowed.len()
        invariant
            i <= allowed.len(),
            forall|j: int|
                0 <= j < i ==> !(#[trigger] allowed@[j]).approves_spec(request.name@, request.hash@),
        decreases allowed.len() - i,
    {
        if allowed[i].approves(request.name.as_str(), request.hash.as_str()) {
            return Some(ConsentOutcome::ApproveWithoutPersisting);
        }
        i += 1;
    }
    None
}

/// An approval is pinned to contents: it says nothing of other contents of
/// the same file, nor of another file.
pub proof fn law_approvals_are_pinned(
    trusted: Set<((bool, Seq<Seq<char>>), Seq<char>)>,
    path: Seq<char>,
    hash: Seq<char>,
    other_path: Seq<char>,
    other_hash: Seq<char>,
)
    requires
        path_key(path) != path_key(other_path) || hash != other_hash,
    ensures
        trusted.insert(trust_key(path, hash)).contains(trust_key(path, hash)),
        trusted.insert(trust_key(path, hash)).contains(trust_key(other_path, other_hash))
            == trusted.contains(trust_key(other_path, other_hash)),
{
}

/// Bytes are written one after the other, each with two lower-case digits that
/// give its value in base sixteen; no byte is left out.
pub proof fn law_bytes_are_written_in_hexadecimal(a: Seq<u8>, b: Seq<u8>, byte: u8)
    ensures
        hex(a + b) == hex(a) + hex(b),
        hex(seq![byte]).len() == 2,
        ({
            let high = hex(seq![byte])[0];
            let low = hex(seq![byte])[1];
            &&& '0' <= high <= '9' || 'a' <= high <= 'f'
            &&& '0' <= low <= '9' || 'a' <= low <= 'f'
            &&& byte == 16 * (if high <= '9' {
                high as u32 - '0' as u32
            } else {
                high as u32 - 'a' as u32 + 10
            }) + (if low <= '9' {
                low as u32 - '0' as u32
            } else {
                low as u32 - 'a' as u32 + 10
            })
        }),
    decreases b.len(),
{
    reveal_with_fuel(hex, 2);
    assert(seq![byte].drop_last() =~= Seq::<u8>::empty());
    if b.len() == 0 {
        assert(a + b =~= a);
        assert(hex(a) + hex(b) =~= hex(a));
    } else {
        assert((a + b).drop_last() =~= a + b.drop_last());
        assert((a + b).last() == b.last());
        law_bytes_are_written_in_hexadecimal(a, b.drop_last(), byte);
        assert(hex(a + b) =~= hex(a) + hex(b));
    }
}

/// Splitting at the last separator: what stands behind it is the last piece, and
/// the pieces before it are those of what stands before it.
proof fn lemma_the_last_piece(a: Seq<char>, c: char, last: Seq<char>)
    requires
        !last.contains(c),
    ensures
        split_on(a + seq![c] + last, c) == split_on(a, c).push(last),
        split_on(last, c) == seq![last],
        split_on(a, c).len() > 0,
    decreases a.len(),
{
    let s = a + seq![c] + last;
    text::lemma_first_index(last, c);
    if text::first_index(last, c) < last.len() {
        assert(last.contains(last[text::first_index(last, c) as int]));
    }
    text::lemma_first_index(a, c);
    text::lemma_first_index(s, c);
    let i = text::first_index(a, c) as int;
    let j = text::first_index(s, c) as int;
    let n = a.len() as int;
    assert(s[n] == c);
    if j < n {
        assert(s[j] == a[j]);
    }
    if i < n {
        assert(s[i] == a[i]);
        assert(i == j);
        assert(s.take(i) =~= a.take(i));
        assert(s.skip(i + 1) =~= a.skip(i + 1) + seq![c] + last);
        lemma_the_last_piece(a.skip(i + 1), c, last);
        assert(split_on(s, c) =~= split_on(a, c).push(last));
    } else {
        assert(j == n);
        assert(s.take(n) =~= a);
        assert(s.skip(n + 1) =~= last);
        assert(split_on(a, c) =~= seq![a]);
        assert(split_on(last, c) =~= seq![last]);
        assert(split_on(s, c) =~= seq![a] + seq![last]);
        assert(split_on(s, c) =~= split_on(a, c).push(last));
    }
}

/// A path names what its components name, from left to right: one component more
/// is one more in what it names, and a doubled or trailing slash, or a dot behind
/// a slash, makes no difference. A path starts at the root if it starts with a
/// slash.
pub proof fn law_paths_are_named_by_their_components(path: Seq<char>, name: Seq<char>)
    requires
        name.len() > 0,
        name != seq!['.'],
        !name.contains('/'),
    ensures
        path_key(path + seq!['/'] + name).1 == path_key(path).1.push(name),
        path_key(path + seq!['/']).1 == path_key(path).1,
        path_key(path + seq!['/', '.']).1 == path_key(path).1,
        path_key(name) == (false, seq![name]),
        path_key(seq!['.']) == (false, seq![seq!['.']]),
        path_key(Seq::empty()) == (false, Seq::<Seq<char>>::empty()),
        path.len() > 0 ==> path_key(path).0 == (path[0] == '/') && path_key(
            path + seq!['/'] + name,
        ).0 == (path[0] == '/') && path_key(path + seq!['/']).0 == (path[0] == '/') && path_key(
            path + seq!['/', '.'],
        ).0 == (path[0] == '/'),
        path_key(seq!['/'] + name).0,
{
    let none = Seq::<char>::empty();
    let dot = seq!['.'];
    let pieces = split_on(path, '/');
    assert(!dot.contains('/'));
    assert(!none.contains('/'));
    lemma_the_last_piece(path, '/', name);
    lemma_the_last_piece(path, '/', none);
    lemma_the_last_piece(path, '/', dot);
    assert(path + seq!['/'] =~= path + seq!['/'] + none);
    assert(path + seq!['/', '.'] =~= path + seq!['/'] + dot);
    assert(pieces.push(name).drop_last() =~= pieces);
    assert(pieces.push(none).drop_last() =~= pieces);
    assert(pieces.push(dot).drop_last() =~= pieces);
    reveal_with_fuel(kept_pieces, 2);
    assert(seq![name].drop_last() =~= Seq::<Seq<char>>::empty());
    assert(seq![dot].drop_last() =~= Seq::<Seq<char>>::empty());
    assert(seq![none].drop_last() =~= Seq::<Seq<char>>::empty());
    assert(kept_pieces(seq![name]) =~= seq![name]);
    assert(kept_pieces(seq![dot]) =~= seq![dot]);
    if name[0] == '/' {
        assert(name.contains('/'));
    }
}

/// Every approval in the list counts, however long the list is, and nothing else
/// does: a skill is trusted with some contents exactly if an entry has that hash
/// and a path of the same components.
pub proof fn law_every_approval_counts(
    entries: Seq<TrustedSkill>,
    path: Seq<char>,
    hash: Seq<char>,
)
    ensures
        trust_set(entries).contains(trust_key(path, hash)) <==> exists|i: int|
            0 <= i < entries.len() && path_key((#[trigger] entries[i]).path@) == path_key(path)
                && entries[i].hash@ == hash,
{
    if exists|i: int|
        0 <= i < entries.len() && path_key((#[trigger] entries[i]).path@) == path_key(path)
            && entries[i].hash@ == hash {
        let i = choose|i: int|
            0 <= i < entries.len() && path_key((#[trigger] entries[i]).path@) == path_key(path)
                && entries[i].hash@ == hash;
        assert(trust_key(entries[i].path@, entries[i].hash@) == trust_key(path, hash));
    }
    if trust_set(entries).contains(trust_key(path, hash)) {
        let i = choose|i: int|
            0 <= i < entries.len() && trust_key((#[trigger] entries[i]).path@, entries[i].hash@)
                == trust_key(path, hash);
        assert(path_key(entries[i].path@) == path_key(path) && entries[i].hash@ == hash);
    }
}

/// A value of the flag is a name up to its first at sign. A name alone approves
/// whatever the contents; behind an at sign only sixty-four lower-case
/// hexadecimal digits are a pin, and an empty name is none.
pub proof fn law_flags_are_read_as_names_and_pins(name: Seq<char>, pin: Seq<char>)
    requires
        !name.contains('@'),
    ensures
        name.len() > 0 ==> AllowSkillEntry::reading(name) == Some((name, None::<Seq<char>>)),
        name.len() > 0 && pin.len() == 64 && (forall|i: int|
            0 <= i < 64 ==> '0' <= #[trigger] pin[i] <= '9' || 'a' <= pin[i] <= 'f')
            ==> AllowSkillEntry::reading(name + seq!['@'] + pin) == Some((name, Some(pin))),
        name.len() == 0 || pin.len() != 64 || (exists|i: int|
            0 <= i < 64 && !('0' <= #[trigger] pin[i] <= '9' || 'a' <= pin[i] <= 'f'))
            ==> AllowSkillEntry::reading(name + seq!['@'] + pin) is None,
        AllowSkillEntry::reading(Seq::empty()) is None,
{
    text::law_splitting_is_at_the_first(name, '@', pin);
    text::law_splitting_is_at_the_first(Seq::empty(), '@', pin);
    if exists|i: int| 0 <= i < 64 && !('0' <= #[trigger] pin[i] <= '9' || 'a' <= pin[i] <= 'f') {
        let i = choose|i: int|
            0 <= i < 64 && !('0' <= #[trigger] pin[i] <= '9' || 'a' <= pin[i] <= 'f');
        assert(!lower_hex(pin[i]));
    }
}

/// A skill approved beforehand is approved by its name, and where a hash is pinned
/// only with that hash.
pub proof fn law_pins_bind(entry: AllowSkillEntry, name: Seq<char>, hash: Seq<char>)
    ensures
        entry.name@ != name ==> !entry.approves_spec(name, hash),
        entry.name@ == name && entry.hash is None ==> entry.approves_spec(name, hash),
        entry.name@ == name && entry.hash is Some ==> (entry.approves_spec(name, hash)
            <==> entry.hash->0@ == hash),
{
}

/// A value that cannot be read is told what is wrong with it: its name where that
/// is empty, and else its pin.
pub proof fn law_unreadable_flags_are_told_why(name: Seq<char>, pin: Seq<char>)
    ensures
        name.len() > 0 && name[0] != '@' ==> AllowSkillEntry::parse_error(name + seq!['@'] + pin)
            == "a pinned hash must be 64 lowercase hexadecimal characters"@,
        AllowSkillEntry::parse_error(seq!['@'] + pin) == "a skill name must not be empty"@,
        AllowSkillEntry::parse_error(Seq::empty()) == "a skill name must not be empty"@,
{
    if name.len() > 0 {
        assert((name + seq!['@'] + pin)[0] == name[0]);
    }
    assert((seq!['@'] + pin)[0] == '@');
}

/// A skill's hash is the digest of all the bytes of its contents, in hexadecimal.
pub proof fn law_hashes_cover_the_whole_contents(contents: Seq<char>)
    ensures
        content_hash(contents) == hex(sha256_digest(vstd::utf8::encode_utf8(contents))),
        sha256_digest(vstd::utf8::encode_utf8(contents)).len() == 32 ==> content_hash(contents).len()
            == 64,
{
    lemma_hex_len(sha256_digest(vstd::utf8::encode_utf8(contents)));
}

proof fn lemma_hex_len(bytes: Seq<u8>)
    ensures
        hex(bytes).len() == 2 * bytes.len(),
    decreases bytes.len(),
{
    if bytes.len() > 0 {
        lemma_hex_len(bytes.drop_last());
    }
}

/// Each scope has a name of its own.
pub proof fn law_scopes_go_by_their_names(scope: SkillScope)
    ensures
        scope is User <==> scope.label_spec() == "user"@,
        scope is Project <==> scope.label_spec() == "project"@,
{
    reveal_strlit("user");
    reveal_strlit("project");
    assert("user"@.len() == 4);
    assert("project"@.len() == 7);
}

/// Where nobody is asked, only the mode that lets everything through runs a skill,
/// and no mode ever records an approval.
pub proof fn law_nobody_asked_records_nothing(mode: PermissionMode)
    ensures
        !(consent_by_mode(mode) is ApproveAndPersist),
        consent_by_mode(mode) is ApproveWithoutPersisting <==> mode is Bypass,
        consent_by_mode(mode) is Decline <==> mode is Deny || mode is AcceptEdits,
{
}

/// An approval is recorded only if the user says that it is to be remembered, and
/// a refusal never runs anything.
pub proof fn law_answers_mean_what_they_say(decision: PermissionDecision)
    ensures
        consent_by_answer(decision) is ApproveAndPersist <==> decision is AllowAndRemember,
        consent_by_answer(decision) is ApproveWithoutPersisting <==> decision is Allow,
        consent_by_answer(decision) is Decline <==> decision is Deny,
{
}

/// Every entry on the command line counts, wherever it stands: one more approves
/// its own skill and takes no approval away.
pub proof fn law_every_flag_counts(
    a: Seq<AllowSkillEntry>,
    entry: AllowSkillEntry,
    b: Seq<AllowSkillEntry>,
    name: Seq<char>,
    hash: Seq<char>,
)
    ensures
        pre_approved(a + seq![entry] + b, name, hash) <==> pre_approved(a, name, hash) || (
        entry.name@ == name && (entry.hash is Some ==> entry.hash->0@ == hash)) || pre_approved(
            b,
            name,
            hash,
        ),
        !pre_approved(Seq::empty(), name, hash),
{
    let all = a + seq![entry] + b;
    let n = a.len() as int;
    if pre_approved(a, name, hash) {
        let i = choose|i: int| 0 <= i < a.len() && (#[trigger] a[i]).approves_spec(name, hash);
        assert(all[i] == a[i]);
    }
    if pre_approved(b, name, hash) {
        let i = choose|i: int| 0 <= i < b.len() && (#[trigger] b[i]).approves_spec(name, hash);
        assert(all[n + 1 + i] == b[i]);
    }
    assert(all[n] == entry);
    if pre_approved(all, name, hash) {
        let i = choose|i: int| 0 <= i < all.len() && (#[trigger] all[i]).approves_spec(name, hash);
        if i < n {
            assert(a[i] == all[i]);
        } else if i > n {
            assert(b[i - n - 1] == all[i]);
        }
    }
}

} // verus!
