//! What is kept between runs: settings, the sealed password and a log that rolls over.
use vstd::prelude::*;
use vstd::utf8::{encode_utf8, is_ascii_chars, is_ascii_chars_encode_utf8};
use crate::clock::{
    bytes_le, cutoff_str, has_plain_stamp, law_stamps_are_in_the_order_of_time,
    lemma_stamp_is_ascii, local_day, no_later, now_str, seconds_at, stamp_of, stamps_day,
    unix_time_at, LocalTime,
};
use crate::crypto::{
    base64_bytes, base64_text, fits_encoder, has_no_null, law_password_comes_back, password_in,
    plain_bytes_of, protect, sealed_bytes, unprotect,
};
use crate::text::{join4, lemma_encode_parts, opt_text, texts};

verus! {

/// The file that holds what is kept.
pub const DAT_FILE: &'static str = "campus-auth.dat";

/// How many lines the log keeps.
pub const MAX_LOG_LINES: usize = 2000;

/// How many days the log keeps a line.
pub const LOG_KEEP_DAYS: u64 = 7;

// ---------------------------------------------------------------------------
// What is kept
// ---------------------------------------------------------------------------

/// What is kept between runs.
#[derive(Debug, Clone)]
pub struct StoreData {
    pub username: String,
    /// The sealed password, in base64.
    pub password_dpapi: String,
    pub save_password: bool,
    /// `pc` or `mobile`.
    pub ua: String,
    pub adapter: String,
    /// The address of the portal; empty where it is not known.
    pub portal_url: String,
    pub log_lines: Vec<String>,
}

/// What is kept between runs, as plain values.
#[verifier::ext_equal]
pub struct DataView {
    pub username: Seq<char>,
    pub password_dpapi: Seq<char>,
    pub save_password: bool,
    pub ua: Seq<char>,
    pub adapter: Seq<char>,
    pub portal_url: Seq<char>,
    pub log_lines: Seq<Seq<char>>,
}

impl View for StoreData {
    type V = DataView;

    open spec fn view(&self) -> DataView {
        DataView {
            username: self.username@,
            password_dpapi: self.password_dpapi@,
            save_password: self.save_password,
            ua: self.ua@,
            adapter: self.adapter@,
            portal_url: self.portal_url@,
            log_lines: texts(self.log_lines@),
        }
    }
}

/// What is kept before anything was.
pub open spec fn fresh_data() -> DataView {
    DataView {
        username: Seq::empty(),
        password_dpapi: Seq::empty(),
        save_password: false,
        ua: "pc"@,
        adapter: Seq::empty(),
        portal_url: Seq::empty(),
        log_lines: Seq::empty(),
    }
}

/// The kind of device where none is kept.
pub fn default_ua() -> (r: String)
    ensures
        r@ == "pc"@,
{
    "pc".to_owned()
}

impl Default for StoreData {
    /// What is kept before anything was: a computer, and nothing else.
    fn default() -> (r: Self)
        ensures
            r@ == fresh_data(),
    {
        let data = StoreData {
            username: String::new(),
            password_dpapi: String::new(),
            save_password: false,
            ua: default_ua(),
            adapter: String::new(),
            portal_url: String::new(),
            log_lines: Vec::new(),
        };
        assert(data@.log_lines == Seq::<Seq<char>>::empty());
        assert(data@ =~= fresh_data());
        data
    }
}

// ---------------------------------------------------------------------------
// The fields of the file
// ---------------------------------------------------------------------------

/// What the file holds: each field where it is there.
#[derive(Debug)]
pub struct FileFields {
    pub username: Option<String>,
    pub password_dpapi: Option<String>,
    pub save_password: Option<bool>,
    pub ua: Option<String>,
    pub adapter: Option<String>,
    pub portal_url: Option<String>,
    pub log_lines: Option<Vec<String>>,
}

/// What the file holds, as plain values.
#[verifier::ext_equal]
pub struct FieldsView {
    pub username: Option<Seq<char>>,
    pub password_dpapi: Option<Seq<char>>,
    pub save_password: Option<bool>,
    pub ua: Option<Seq<char>>,
    pub adapter: Option<Seq<char>>,
    pub portal_url: Option<Seq<char>>,
    pub log_lines: Option<Seq<Seq<char>>>,
}

impl View for FileFields {
    type V = FieldsView;

    open spec fn view(&self) -> FieldsView {
        FieldsView {
            username: opt_text(self.username),
            password_dpapi: opt_text(self.password_dpapi),
            save_password: self.save_password,
            ua: opt_text(self.ua),
            adapter: opt_text(self.adapter),
            portal_url: opt_text(self.portal_url),
            log_lines: match self.log_lines {
                Some(lines) => Some(texts(lines@)),
                None => None,
            },
        }
    }
}

/// A value, or another in its place where it is absent.
pub open spec fn value_or<A>(value: Option<A>, other: A) -> A {
    match value {
        Some(v) => v,
        None => other,
    }
}

/// What is kept by the fields of a file. A field that is absent is as it is before anything
/// was kept.
pub open spec fn data_of(f: FieldsView) -> DataView {
    let fresh = fresh_data();
    DataView {
        username: value_or(f.username, fresh.username),
        password_dpapi: value_or(f.password_dpapi, fresh.password_dpapi),
        save_password: value_or(f.save_password, fresh.save_password),
        ua: value_or(f.ua, fresh.ua),
        adapter: value_or(f.adapter, fresh.adapter),
        portal_url: value_or(f.portal_url, fresh.portal_url),
        log_lines: value_or(f.log_lines, fresh.log_lines),
    }
}

/// The fields of the file that holds what is kept: all of them.
pub open spec fn fields_of(d: DataView) -> FieldsView {
    FieldsView {
        username: Some(d.username),
        password_dpapi: Some(d.password_dpapi),
        save_password: Some(d.save_password),
        ua: Some(d.ua),
        adapter: Some(d.adapter),
        portal_url: Some(d.portal_url),
        log_lines: Some(d.log_lines),
    }
}

/// A text, or the empty one in its place.
fn text_or_empty(s: Option<String>) -> (r: String)
    ensures
        r@ == value_or(opt_text(s), Seq::empty()),
{
    match s {
        Some(t) => t,
        None => String::new(),
    }
}

/// The same lines once more.
fn copy_of(lines: &Vec<String>) -> (r: Vec<String>)
    ensures
        texts(r@) == texts(lines@),
{
    let mut out: Vec<String> = Vec::new();
    let mut i: usize = 0;
    while i < lines.len()
        invariant
            i <= lines@.len(),
            texts(out@) == texts(lines@).take(i as int),
        decreases lines@.len() - i,
    {
        let ghost before = texts(out@);
        let line = lines[i].as_str().to_owned();
        out.push(line);
        assert(texts(out@) == before.push(line@));
        assert(texts(lines@).take(i + 1) == before.push(lines@[i as int]@));
        i += 1;
    }
    assert(texts(lines@).take(i as int) == texts(lines@));
    out
}

impl StoreData {
    /// What is kept by the fields of a file. A field that is absent is as it is before
    /// anything was kept.
    pub fn from_fields(f: FileFields) -> (r: Self)
        ensures
            r@ == data_of(f@),
    {
        let data = StoreData {
            username: text_or_empty(f.username),
            password_dpapi: text_or_empty(f.password_dpapi),
            save_password: match f.save_password {
                Some(b) => b,
                None => false,
            },
            ua: match f.ua {
                Some(ua) => ua,
                None => default_ua(),
            },
            adapter: text_or_empty(f.adapter),
            portal_url: text_or_empty(f.portal_url),
            log_lines: match f.log_lines {
                Some(lines) => lines,
                None => Vec::new(),
            },
        };
        assert(data@.log_lines == data_of(f@).log_lines);
        data
    }

    /// The fields of the file that holds what is kept: all of them.
    pub fn fields(&self) -> (r: FileFields)
        ensures
            r@ == fields_of(self@),
    {
        FileFields {
            username: Some(self.username.as_str().to_owned()),
            password_dpapi: Some(self.password_dpapi.as_str().to_owned()),
            save_password: Some(self.save_password),
            ua: Some(self.ua.as_str().to_owned()),
            adapter: Some(self.adapter.as_str().to_owned()),
            portal_url: Some(self.portal_url.as_str().to_owned()),
            log_lines: Some(copy_of(&self.log_lines)),
        }
    }
}

// ---------------------------------------------------------------------------
// The log
// ---------------------------------------------------------------------------

/// A line of the log: when, and what.
pub open spec fn log_line_of(now: LocalTime, msg: Seq<char>) -> Seq<char> {
    "["@ + stamp_of(now) + "] "@ + msg
}

/// The last lines that the log has room for.
pub open spec fn capped(lines: Seq<Seq<char>>) -> Seq<Seq<char>> {
    if lines.len() > MAX_LOG_LINES {
        lines.skip(lines.len() - MAX_LOG_LINES)
    } else {
        lines
    }
}

/// A line stays: its stamp is not before the deadline, or it is too short for one.
pub open spec fn stays(line: Seq<char>, deadline: Seq<char>) -> bool {
    let bytes = encode_utf8(line);
    bytes.len() < 20 || bytes_le(encode_utf8(deadline), bytes.subrange(1, 20))
}

/// The lines that stay.
pub open spec fn unexpired(lines: Seq<Seq<char>>, deadline: Seq<char>) -> Seq<Seq<char>>
    decreases lines.len(),
{
    if lines.len() == 0 {
        Seq::empty()
    } else if stays(lines.last(), deadline) {
        unexpired(lines.drop_last(), deadline).push(lines.last())
    } else {
        unexpired(lines.drop_last(), deadline)
    }
}

/// The log after a line: the last lines that it has room for, without those that are older
/// than the deadline.
pub open spec fn logged(
    lines: Seq<Seq<char>>,
    now: LocalTime,
    msg: Seq<char>,
    deadline: Seq<char>,
) -> Seq<Seq<char>> {
    unexpired(capped(lines.push(log_line_of(now, msg))), deadline)
}

/// Whether `a` is no later than `b`, byte by byte.
fn no_later_bytes(a: &[u8], b: &[u8]) -> (r: bool)
    ensures
        r == bytes_le(a@, b@),
{
    let mut i: usize = 0;
    assert(a@.skip(0) == a@ && b@.skip(0) == b@);
    while i < a.len() && i < b.len()
        invariant
            i <= a@.len(),
            i <= b@.len(),
            bytes_le(a@, b@) == bytes_le(a@.skip(i as int), b@.skip(i as int)),
        decreases a@.len() - i,
    {
        let ghost (x, y) = (a@.skip(i as int), b@.skip(i as int));
        assert(x[0] == a@[i as int] && y[0] == b@[i as int]);
        assert(x.skip(1) == a@.skip(i + 1) && y.skip(1) == b@.skip(i + 1));
        if a[i] != b[i] {
            return a[i] < b[i];
        }
        i += 1;
    }
    i >= a.len()
}

/// Whether a line stays.
fn line_stays(line: &str, deadline: &str) -> (r: bool)
    ensures
        r == stays(line@, deadline@),
{
    let bytes = line.as_bytes();
    if bytes.len() < 20 {
        return true;
    }
    let when = &bytes[1..20];
    assert(when@ == encode_utf8(line@).subrange(1, 20));
    no_later_bytes(deadline.as_bytes(), when)
}

// ---------------------------------------------------------------------------
// The store
// ---------------------------------------------------------------------------

/// What is kept, and whether it has yet to be written.
#[derive(Debug)]
pub struct Store {
    pub data: StoreData,
    pub dirty: bool,
}

/// The kept data without the account and the password.
pub open spec fn without_credentials(d: DataView) -> DataView {
    DataView { username: Seq::empty(), password_dpapi: Seq::empty(), save_password: false, ..d }
}

/// The kept data with an account.
pub open spec fn with_account(
    d: DataView,
    username: Seq<char>,
    ua: Seq<char>,
    adapter: Seq<char>,
) -> DataView {
    DataView { username, save_password: true, ua, adapter, ..d }
}

/// What is kept of what was read. Where nothing could be read, it is what is kept before
/// anything was.
pub open spec fn loaded(read: Option<FieldsView>) -> DataView {
    match read {
        Some(f) => data_of(f),
        None => fresh_data(),
    }
}

/// A password is there to be kept.
pub open spec fn is_given(password: Option<Seq<char>>) -> bool {
    password matches Some(p) && p.len() > 0
}

/// Whether a password is to be sealed: where it is to be kept, and there is one.
pub fn is_to_be_sealed(password: Option<&str>, save_password: bool) -> (r: bool)
    ensures
        r == (save_password && is_given(text_view(password))),
{
    match password {
        Some(pw) => save_password && !pw.is_empty(),
        None => false,
    }
}

/// A password is to be kept, and was not sealed.
pub open spec fn keeping_fails(
    password: Option<Seq<char>>,
    sealed: Option<Seq<u8>>,
    save_password: bool,
) -> bool {
    save_password && is_given(password) && sealed is None
}

/// What is kept once an account was to be kept, or to be forgotten.
pub open spec fn credentials_kept(
    d: DataView,
    username: Seq<char>,
    password: Option<Seq<char>>,
    sealed: Option<Seq<u8>>,
    save_password: bool,
    ua: Seq<char>,
    adapter: Seq<char>,
) -> DataView {
    let account = with_account(d, username, ua, adapter);
    if !save_password {
        without_credentials(d)
    } else if !is_given(password) {
        DataView { password_dpapi: Seq::empty(), ..account }
    } else {
        match sealed {
            Some(bytes) => DataView { password_dpapi: base64_text(bytes), ..account },
            None => account,
        }
    }
}

/// The sealed password that is kept. There is none where none is kept, or where what is
/// kept is not base64.
pub open spec fn kept_sealed(d: DataView) -> Option<Seq<u8>> {
    if d.password_dpapi.len() == 0 {
        None
    } else {
        match base64_bytes(d.password_dpapi) {
            Ok(bytes) => Some(bytes),
            Err(_) => None,
        }
    }
}

/// The password that is kept, by what the operating system opened of the sealed one.
pub open spec fn kept_password(d: DataView, opened: Option<Seq<u8>>) -> Option<Seq<char>> {
    match (kept_sealed(d), opened) {
        (Some(_), Some(bytes)) => Some(password_in(bytes)),
        _ => None,
    }
}

/// The password to sign in with: the one that is kept, where it was to be kept.
pub open spec fn usable_password(d: DataView, opened: Option<Seq<u8>>) -> Option<Seq<char>> {
    if d.save_password {
        kept_password(d, opened)
    } else {
        None
    }
}

/// The characters of a text that may be absent.
pub open spec fn text_view(s: Option<&str>) -> Option<Seq<char>> {
    match s {
        Some(t) => Some(t@),
        None => None,
    }
}

/// Bytes that may be absent.
pub open spec fn bytes_view(b: Option<&[u8]>) -> Option<Seq<u8>> {
    match b {
        Some(v) => Some(v@),
        None => None,
    }
}

impl Store {
    /// The store with what was read. Where nothing could be read, it holds what is kept
    /// before anything was.
    pub fn load(read: Option<FileFields>) -> (r: Self)
        ensures
            r.data@ == loaded(
                match read {
                    Some(f) => Some(f@),
                    None => None,
                },
            ),
            !r.dirty,
    {
        let data = match read {
            Some(f) => StoreData::from_fields(f),
            None => StoreData::default(),
        };
        Store { data, dirty: false }
    }

    /// Hands out what is kept for writing.
    pub fn save(&mut self) -> (r: &StoreData)
        ensures
            *r == old(self).data,
            final(self).data == old(self).data,
            !final(self).dirty,
    {
        self.dirty = false;
        &self.data
    }

    /// Hands out what is kept for writing, where it has yet to be written.
    pub fn save_if_dirty(&mut self) -> (r: Option<&StoreData>)
        ensures
            final(self).data == old(self).data,
            !final(self).dirty,
            match r {
                Some(d) => old(self).dirty && *d == old(self).data,
                None => !old(self).dirty,
            },
    {
        if self.dirty {
            self.dirty = false;
            Some(&self.data)
        } else {
            None
        }
    }

    /// Adds a line to the log, and drops those beyond its room and those whose day is over:
    /// it keeps seven days, counted back from the moment of the clock. Local time is `offset`
    /// seconds ahead of UTC.
    pub fn append_log(&mut self, msg: &str, now: &LocalTime, offset: i64)
        ensures
            exists|deadline: Seq<char>, t: std::time::SystemTime|
                #![trigger logged(old(self).data@.log_lines, *now, msg@, deadline), unix_time_at(t)]
                stamps_day(deadline, local_day(seconds_at(t), offset as int) - 7)
                    && final(self).data@ == (DataView {
                    log_lines: logged(old(self).data@.log_lines, *now, msg@, deadline),
                    ..old(self).data@
                }),
            final(self).dirty,
    {
        let deadline = cutoff_str(LOG_KEEP_DAYS, offset);
        self.append_log_since(msg, now, &deadline);
    }

    /// Adds a line to the log, and drops those beyond its room and those from before the
    /// deadline.
    pub fn append_log_since(&mut self, msg: &str, now: &LocalTime, deadline: &str)
        ensures
            final(self).data@ == (DataView {
                log_lines: logged(old(self).data@.log_lines, *now, msg@, deadline@),
                ..old(self).data@
            }),
            final(self).dirty,
    {
        let ghost start = texts(self.data.log_lines@);
        let line = join4("[", &now_str(now), "] ", msg);
        self.data.log_lines.push(line);
        assert(texts(self.data.log_lines@) == start.push(log_line_of(*now, msg@)));
        if self.data.log_lines.len() > MAX_LOG_LINES {
            let excess: usize = self.data.log_lines.len() - MAX_LOG_LINES;
            let ghost all = self.data.log_lines@;
            let kept = self.data.log_lines.split_off(excess);
            self.data.log_lines = kept;
            assert(kept@ == all.skip(excess as int));
            assert(texts(kept@) == texts(all).skip(excess as int));
        }
        assert(texts(self.data.log_lines@) == capped(start.push(log_line_of(*now, msg@))));
        self.drop_expired_logs(deadline);
        self.dirty = true;
    }

    /// Drops the lines from before the deadline. Doing so again changes nothing.
    pub fn drop_expired_logs(&mut self, deadline: &str)
        ensures
            final(self).data@ == (DataView {
                log_lines: unexpired(old(self).data@.log_lines, deadline@),
                ..old(self).data@
            }),
            unexpired(final(self).data@.log_lines, deadline@) == final(self).data@.log_lines,
            final(self).dirty == old(self).dirty,
    {
        let ghost views = texts(self.data.log_lines@);
        let mut kept: Vec<String> = Vec::new();
        let mut i: usize = 0;
        assert(views.take(0) == Seq::<Seq<char>>::empty());
        assert(texts(kept@) == unexpired(views.take(0), deadline@));
        while i < self.data.log_lines.len()
            invariant
                i <= self.data.log_lines@.len(),
                self.data@ == old(self).data@,
                self.dirty == old(self).dirty,
                views == texts(self.data.log_lines@),
                texts(kept@) == unexpired(views.take(i as int), deadline@),
            decreases self.data.log_lines@.len() - i,
        {
            let ghost before = texts(kept@);
            assert(views.take(i + 1).drop_last() == views.take(i as int));
            assert(views.take(i + 1).last() == self.data.log_lines@[i as int]@);
            if line_stays(&self.data.log_lines[i], deadline) {
                let line = self.data.log_lines[i].as_str().to_owned();
                kept.push(line);
                assert(texts(kept@) == before.push(line@));
            }
            i += 1;
        }
        assert(views.take(views.len() as int) == views);
        proof {
            law_lines_expire_once(views, deadline@);
        }
        self.data.log_lines = kept;
    }

    /// Empties the log.
    pub fn clear_logs(&mut self)
        ensures
            final(self).data@ == (DataView { log_lines: Seq::empty(), ..old(self).data@ }),
            final(self).dirty,
    {
        self.data.log_lines = Vec::new();
        assert(texts(self.data.log_lines@) == Seq::<Seq<char>>::empty());
        self.dirty = true;
    }

    /// Keeps an account: with the password, where there is one, as the operating system
    /// sealed it; `sealed` is `None` where that failed, which keeps the account without it
    /// and writes nothing. An account that is not to be kept is forgotten, with the
    /// password. A password that is kept comes back once the operating system opens what it
    /// sealed.
    pub fn set_credentials(
        &mut self,
        username: &str,
        password: Option<&str>,
        sealed: Option<&[u8]>,
        save_password: bool,
        ua: &str,
        adapter: &str,
    ) -> (r: Result<(), String>)
        requires
            sealed matches Some(bytes) ==> fits_encoder(bytes@.len()),
        ensures
            final(self).data@ == credentials_kept(
                old(self).data@,
                username@,
                text_view(password),
                bytes_view(sealed),
                save_password,
                ua@,
                adapter@,
            ),
            r is Err == keeping_fails(text_view(password), bytes_view(sealed), save_password),
            r matches Err(e) ==> e@ == "CryptProtectData 失败"@,
            final(self).dirty == (old(self).dirty || r is Ok),
            save_password && is_given(text_view(password)) && sealed is Some && sealed->0@.len() > 0
                ==> kept_sealed(final(self).data@) == Some(sealed->0@),
            save_password && is_given(text_view(password)) && sealed is Some && sealed->0@.len() > 0
                && has_no_null(password->0@) ==> usable_password(
                final(self).data@,
                Some(plain_bytes_of(password->0@)),
            ) == Some(password->0@),
            !save_password || !is_given(text_view(password)) ==> forall|opened: Option<Seq<u8>>| #[trigger]
                kept_password(final(self).data@, opened) is None,
    {
        if !save_password {
            self.clear_credentials();
            return Ok(());
        }
        self.data.username = username.to_owned();
        self.data.save_password = true;
        self.data.ua = ua.to_owned();
        self.data.adapter = adapter.to_owned();
        let wanted = match password {
            Some(pw) => !pw.is_empty(),
            None => false,
        };
        if wanted {
            match protect(sealed) {
                Ok(text) => {
                    self.data.password_dpapi = text;
                    proof {
                        if has_no_null(password->0@) {
                            law_password_comes_back(password->0@);
                        }
                    }
                },
                Err(e) => {
                    return Err(e);
                },
            }
        } else {
            self.data.password_dpapi = String::new();
        }
        self.dirty = true;
        Ok(())
    }

    /// Forgets the account and the password.
    pub fn clear_credentials(&mut self)
        ensures
            final(self).data@ == without_credentials(old(self).data@),
            forall|opened: Option<Seq<u8>>| #[trigger]
                kept_password(final(self).data@, opened) is None,
            final(self).dirty,
    {
        self.data.username = String::new();
        self.data.password_dpapi = String::new();
        self.data.save_password = false;
        self.dirty = true;
    }

    /// Keeps the address of the portal.
    pub fn remember_portal(&mut self, url: &str)
        ensures
            final(self).data@ == (DataView { portal_url: url@, ..old(self).data@ }),
            final(self).dirty,
    {
        self.data.portal_url = url.to_owned();
        self.dirty = true;
    }

    /// The sealed password that is kept, for the operating system to open. There is none
    /// where none is kept, or where what is kept is not base64.
    pub fn sealed_password(&self) -> (r: Option<Vec<u8>>)
        ensures
            match r {
                Some(bytes) => kept_sealed(self.data@) == Some(bytes@),
                None => kept_sealed(self.data@) is None,
            },
    {
        if self.data.password_dpapi.as_str().is_empty() {
            return None;
        }
        match sealed_bytes(&self.data.password_dpapi) {
            Ok(bytes) => Some(bytes),
            Err(_) => None,
        }
    }

    /// The password that is kept. `opened` is what the operating system opened of what
    /// `sealed_password` gives; it is `None` where that failed.
    pub fn get_password(&self, opened: Option<&[u8]>) -> (r: Option<String>)
        ensures
            opt_text(r) == kept_password(self.data@, bytes_view(opened)),
    {
        if self.sealed_password().is_none() {
            return None;
        }
        match unprotect(opened) {
            Ok(text) => Some(text),
            Err(_) => None,
        }
    }

    /// The password to sign in with: the one that is kept, where it was to be kept. `opened`
    /// is what the operating system opened of what `sealed_password` gives.
    pub fn password_to_use(&self, opened: Option<&[u8]>) -> (r: Option<String>)
        ensures
            opt_text(r) == usable_password(self.data@, bytes_view(opened)),
    {
        if self.data.save_password {
            self.get_password(opened)
        } else {
            None
        }
    }
}

// ---------------------------------------------------------------------------
// Laws
// ---------------------------------------------------------------------------

/// Dropping lines makes no log longer.
proof fn lemma_unexpired_is_no_longer(lines: Seq<Seq<char>>, deadline: Seq<char>)
    ensures
        unexpired(lines, deadline).len() <= lines.len(),
    decreases lines.len(),
{
    if lines.len() > 0 {
        lemma_unexpired_is_no_longer(lines.drop_last(), deadline);
    }
}

/// What has stayed stays: dropping what is older than the same deadline again changes
/// nothing.
pub proof fn law_lines_expire_once(lines: Seq<Seq<char>>, deadline: Seq<char>)
    ensures
        unexpired(unexpired(lines, deadline), deadline) == unexpired(lines, deadline),
    decreases lines.len(),
{
    if lines.len() > 0 {
        law_lines_expire_once(lines.drop_last(), deadline);
        if stays(lines.last(), deadline) {
            let kept = unexpired(lines.drop_last(), deadline);
            assert(kept.push(lines.last()).drop_last() == kept);
        }
    }
}

/// Expired lines are left out, and the others stay in their order.
pub proof fn law_expiry_keeps_the_order(lines: Seq<Seq<char>>, deadline: Seq<char>)
    ensures
        unexpired(lines, deadline) == lines.filter(|line: Seq<char>| stays(line, deadline)),
    decreases lines.len(),
{
    reveal(Seq::filter);
    if lines.len() > 0 {
        law_expiry_keeps_the_order(lines.drop_last(), deadline);
    }
}

/// What is written is read again: the fields of what was handed out for writing give the
/// same data, field by field.
pub proof fn law_written_data_is_read_again(d: DataView)
    ensures
        loaded(Some(fields_of(d))) == d,
{
}

/// A field that the file does not hold is as it is before anything was kept, and one that
/// it holds is as it is written there.
pub proof fn law_absent_fields_are_fresh(f: FieldsView)
    ensures
        loaded(Some(f)).username == value_or(f.username, Seq::empty()),
        loaded(Some(f)).password_dpapi == value_or(f.password_dpapi, Seq::empty()),
        loaded(Some(f)).save_password == value_or(f.save_password, false),
        loaded(Some(f)).ua == value_or(f.ua, "pc"@),
        loaded(Some(f)).adapter == value_or(f.adapter, Seq::empty()),
        loaded(Some(f)).portal_url == value_or(f.portal_url, Seq::empty()),
        loaded(Some(f)).log_lines == value_or(f.log_lines, Seq::empty()),
{
}

/// A password that is kept sealed comes back once the operating system has opened it.
pub proof fn law_kept_password_comes_back(d: DataView, password: Seq<char>)
    requires
        kept_sealed(d) is Some,
        has_no_null(password),
    ensures
        kept_password(d, Some(plain_bytes_of(password))) == Some(password),
{
    law_password_comes_back(password);
}

/// Where no password was to be kept, none comes back, whatever the operating system opens.
pub proof fn law_password_not_kept_is_gone(
    d: DataView,
    username: Seq<char>,
    password: Option<Seq<char>>,
    sealed: Option<Seq<u8>>,
    save_password: bool,
    ua: Seq<char>,
    adapter: Seq<char>,
    opened: Option<Seq<u8>>,
)
    requires
        !save_password || !is_given(password),
    ensures
        kept_password(
            credentials_kept(d, username, password, sealed, save_password, ua, adapter),
            opened,
        ) is None,
        kept_password(without_credentials(d), opened) is None,
{
}

/// The log never outgrows its room.
pub proof fn law_log_keeps_its_room(
    lines: Seq<Seq<char>>,
    now: LocalTime,
    msg: Seq<char>,
    deadline: Seq<char>,
)
    ensures
        logged(lines, now, msg, deadline).len() <= MAX_LOG_LINES,
{
    lemma_unexpired_is_no_longer(capped(lines.push(log_line_of(now, msg))), deadline);
}

/// A line of the log stays exactly as long as its moment is not before the deadline.
pub proof fn law_lines_expire_by_time(at: LocalTime, msg: Seq<char>, deadline: LocalTime)
    requires
        has_plain_stamp(at),
        has_plain_stamp(deadline),
    ensures
        stays(log_line_of(at, msg), stamp_of(deadline)) == no_later(deadline, at),
{
    let (head, tail) = ("["@ + stamp_of(at), "] "@ + msg);
    assert(log_line_of(at, msg) == head + tail);
    lemma_encode_parts(head, tail);
    lemma_encode_parts("["@, stamp_of(at));
    lemma_stamp_is_ascii(at);
    reveal_strlit("[");
    assert(is_ascii_chars("["@));
    is_ascii_chars_encode_utf8("["@);
    assert(encode_utf8("["@).len() == 1);
    let bytes = encode_utf8(log_line_of(at, msg));
    assert(bytes.subrange(1, 20) == encode_utf8(stamp_of(at)));
    law_stamps_are_in_the_order_of_time(deadline, at);
}

/// What is written stays: a line whose moment is not before the deadline is the last of the
/// log.
pub proof fn law_new_line_is_the_last(
    lines: Seq<Seq<char>>,
    now: LocalTime,
    msg: Seq<char>,
    deadline: LocalTime,
)
    requires
        has_plain_stamp(now),
        has_plain_stamp(deadline),
        no_later(deadline, now),
    ensures
        logged(lines, now, msg, stamp_of(deadline)).len() > 0,
        logged(lines, now, msg, stamp_of(deadline)).last() == log_line_of(now, msg),
{
    law_lines_expire_by_time(now, msg, deadline);
    let all = capped(lines.push(log_line_of(now, msg)));
    assert(all.last() == log_line_of(now, msg));
}

} // verus!
