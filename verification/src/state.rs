//! The editor-facing state machine: what each notification from the editor
//! does to the session, and which requests are answered how. The editor
//! connection itself (message decoding, files, the browser) lives outside
//! this library.

use vstd::prelude::*;

use crate::recorder::{
    arrow_token, kind_of, recorded, strictly_sorted, views, Config, Kind, Session, Timestamp,
};
use crate::text::{chars_are, chars_of};

verus! {

broadcast use vstd::string::group_string_axioms;

/// Everything the process keeps between messages.
pub struct AppState {
    pub config: Config,
    pub session: Session,
}

/// The notifications the editor sends.
#[derive(Clone, Copy, Debug, PartialEq, Eq, Structural)]
pub enum Notice {
    /// `setup(output_dir, min_keys, vmin, hmin, xmin)`: (re)start a session.
    Setup,
    /// `key(tok, mode, line, col, text)`: one keystroke.
    Key,
    /// `cursor(line, col)`: the cursor moved.
    Cursor,
    /// `buf(path)`: a file was visited.
    Buf,
    /// Anything else, ignored.
    Ignored,
}

/// The requests the editor sends.
#[derive(Clone, Copy, Debug, PartialEq, Eq, Structural)]
pub enum Request {
    /// `report(reason)`: analyze, write and open a report.
    Report,
    /// `open_latest()`: open the newest report.
    OpenLatest,
    /// Anything else, answered with an error.
    Unknown,
}

/// The notification a method name stands for.
pub open spec fn notice_of(name: Seq<char>) -> Notice {
    if name == "setup"@ {
        Notice::Setup
    } else if name == "key"@ {
        Notice::Key
    } else if name == "cursor"@ {
        Notice::Cursor
    } else if name == "buf"@ {
        Notice::Buf
    } else {
        Notice::Ignored
    }
}

/// The request a method name stands for.
pub open spec fn request_of(name: Seq<char>) -> Request {
    if name == "report"@ {
        Request::Report
    } else if name == "open_latest"@ {
        Request::OpenLatest
    } else {
        Request::Unknown
    }
}

/// Which notification a method name is.
pub fn notice_kind(name: &str) -> (n: Notice)
    ensures
        n == notice_of(name@),
{
    let v = chars_of(name);
    if chars_are(&v, "setup") {
        Notice::Setup
    } else if chars_are(&v, "key") {
        Notice::Key
    } else if chars_are(&v, "cursor") {
        Notice::Cursor
    } else if chars_are(&v, "buf") {
        Notice::Buf
    } else {
        Notice::Ignored
    }
}

/// Which request a method name is.
pub fn request_kind(name: &str) -> (r: Request)
    ensures
        r == request_of(name@),
{
    let v = chars_of(name);
    if chars_are(&v, "report") {
        Request::Report
    } else if chars_are(&v, "open_latest") {
        Request::OpenLatest
    } else {
        Request::Unknown
    }
}

/// A report is written unless the session ends (`reason` is `exit`) with
/// fewer keystrokes than the configured minimum.
pub open spec fn report_wanted(reason: Seq<char>, total_keys: u64, min_keys: i64) -> bool {
    !(reason == "exit"@ && (total_keys as int) < (min_keys as int))
}

/// The state's invariant: the visited files are kept sorted and unique.
pub open spec fn state_wf(st: AppState) -> bool {
    strictly_sorted(views(st.session.files@))
}

/// A manual report is always written; at exit, only once the session has
/// reached the configured number of keystrokes.
pub proof fn lemma_report_reasons(total_keys: u64, min_keys: i64)
    ensures
        report_wanted("manual"@, total_keys, min_keys),
        report_wanted("exit"@, total_keys, min_keys) == ((total_keys as int) >= (min_keys as int)),
{
    reveal_strlit("manual");
    reveal_strlit("exit");
    assert("manual"@.len() == 6 && "exit"@.len() == 4);
    assert("manual"@ != "exit"@);
}

impl AppState {
    /// Default configuration and a fresh session that started at the clock
    /// reading `start`.
    pub fn new(start: Timestamp) -> (st: Self)
        ensures
            state_wf(st),
            st.config.output_dir@ == "."@,
            st.config.min_keys == 20,
            st.config.vmin == 3,
            st.config.hmin == 5,
            st.config.xmin == 3,
            st.session.keylog@.len() == 0,
            st.session.total_keys == 0,
            st.session.insert_arrows == 0,
            st.session.files@.len() == 0,
            st.session.last_pos == (1i64, 0i64),
            st.session.start == start,
    {
        let st = AppState { config: Config::default(), session: Session::new(start) };
        assert(views(st.session.files@) =~= Seq::<Seq<char>>::empty());
        st
    }

    /// `setup`: take the new configuration; a setup marks the true start of a
    /// session, so the session starts afresh, at the clock reading `start`.
    pub fn setup(
        &mut self,
        output_dir: String,
        min_keys: i64,
        vmin: i64,
        hmin: i64,
        xmin: i64,
        start: Timestamp,
    )
        ensures
            state_wf(*final(self)),
            final(self).config.output_dir@ == output_dir@,
            final(self).config.min_keys == min_keys,
            final(self).config.vmin == vmin,
            final(self).config.hmin == hmin,
            final(self).config.xmin == xmin,
            final(self).session.keylog@.len() == 0,
            final(self).session.total_keys == 0,
            final(self).session.insert_arrows == 0,
            final(self).session.files@.len() == 0,
            final(self).session.last_pos == (1i64, 0i64),
            final(self).session.start == start,
    {
        self.config = Config { output_dir, min_keys, vmin, hmin, xmin };
        self.session = Session::new(start);
        assert(views(self.session.files@) =~= Seq::<Seq<char>>::empty());
    }

    /// `key`: record a keystroke; an empty token is ignored.
    pub fn key(&mut self, tok: String, mode: &str, line: i64, col: i64, text: Option<String>)
        requires
            state_wf(*old(self)),
            kind_of(mode@) == Kind::Insert && arrow_token(tok@) ==> old(self).session.insert_arrows
                < u64::MAX,
            kind_of(mode@) == Kind::Normal || kind_of(mode@) == Kind::Visual
                ==> old(self).session.total_keys < u64::MAX,
        ensures
            state_wf(*final(self)),
            final(self).config == old(self).config,
            tok@.len() == 0 ==> final(self).session == old(self).session,
            tok@.len() > 0 ==> recorded(
                &old(self).session,
                &final(self).session,
                tok@,
                mode@,
                line,
                col,
                crate::text::opt_view(text),
            ),
    {
        if tok.as_str().is_empty() {
            return;
        }
        self.session.record_key(tok, mode, line, col, text);
    }

    /// `cursor`: remember the latest cursor position.
    pub fn cursor(&mut self, line: i64, col: i64)
        requires
            state_wf(*old(self)),
        ensures
            state_wf(*final(self)),
            final(self).config == old(self).config,
            final(self).session.last_pos == (line, col),
            final(self).session.keylog == old(self).session.keylog,
            final(self).session.total_keys == old(self).session.total_keys,
            final(self).session.insert_arrows == old(self).session.insert_arrows,
            final(self).session.files == old(self).session.files,
            final(self).session.start == old(self).session.start,
    {
        self.session.last_pos = (line, col);
    }

    /// `buf`: note a visited file; an empty path is ignored.
    pub fn buf(&mut self, path: String)
        requires
            state_wf(*old(self)),
        ensures
            state_wf(*final(self)),
            final(self).config == old(self).config,
            views(final(self).session.files@).to_set() == if path@.len() == 0 {
                views(old(self).session.files@).to_set()
            } else {
                views(old(self).session.files@).to_set().insert(path@)
            },
            final(self).session.keylog@ == old(self).session.keylog@,
            final(self).session.total_keys == old(self).session.total_keys,
            final(self).session.insert_arrows == old(self).session.insert_arrows,
            final(self).session.last_pos == old(self).session.last_pos,
            final(self).session.start == old(self).session.start,
    {
        self.session.visit_file(path);
    }

    /// Whether a `report` request with this reason writes a report.
    pub fn report_due(&self, reason: &str) -> (r: bool)
        ensures
            r == report_wanted(reason@, self.session.total_keys, self.config.min_keys),
    {
        let v = chars_of(reason);
        !(chars_are(&v, "exit") && (self.session.total_keys as i128) < (self.config.min_keys as i128))
    }
}

} // verus!
