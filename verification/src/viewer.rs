//! The viewer's window bookkeeping and file-change filter.
//!
//! A file opened from the desktop goes to the main window while that window
//! has not loaded a file yet, and to a new window otherwise. A new window
//! learns which file to show by asking once for its pending file.
use vstd::prelude::*;
use crate::paths::{path_file_name, path_file_name_of};
use crate::text::{push_char, text_eq};

verus! {

// ---------------------------------------------------------------------------
// Window labels and titles
// ---------------------------------------------------------------------------

pub open spec fn digit_of(d: nat) -> char {
    (('0' as u32) + d) as char
}

/// The decimal digits of `n`.
pub open spec fn decimal_of(n: nat) -> Seq<char>
    decreases n,
{
    if n < 10 {
        seq![digit_of(n)]
    } else {
        decimal_of(n / 10).push(digit_of(n % 10))
    }
}

/// The label of the window with number `id`: `monocle-<id>`.
pub open spec fn window_label_of(id: nat) -> Seq<char> {
    "monocle-"@ + decimal_of(id)
}

/// The title of a window showing `path`: `Monocle — <file name>`.
pub open spec fn window_title_of(path: Seq<char>) -> Seq<char> {
    "Monocle — "@ + match path_file_name_of(path) {
        Some(n) => n,
        None => Seq::<char>::empty(),
    }
}

/// The label of the main window.
pub open spec fn main_label() -> Seq<char> {
    "main"@
}

fn push_decimal(out: &mut String, n: u32)
    ensures
        final(out)@ == old(out)@ + decimal_of(n as nat),
    decreases n,
{
    if n >= 10 {
        push_decimal(out, n / 10);
    }
    let d = n % 10;
    push_char(out, ((d as u8) + 48) as char);
    proof {
        assert(((d as u8) + 48) as char == digit_of(d as nat)) by {
            assert(('0' as u32) == 48);
        }
        if n < 10 {
            assert(decimal_of(n as nat) == seq![digit_of(n as nat)]);
        }
    }
    assert(final(out)@ =~= old(out)@ + decimal_of(n as nat)) by {
        if n >= 10 {
            assert(decimal_of(n as nat) == decimal_of((n / 10) as nat).push(digit_of((n % 10) as nat)));
        }
    }
}

/// The label of the window with number `id`.
pub fn window_label(id: u32) -> (r: String)
    ensures
        r@ == window_label_of(id as nat),
{
    let mut s = String::from_str("monocle-");
    push_decimal(&mut s, id);
    s
}

/// The title of a window showing `path`.
pub fn window_title(path: &str) -> (r: String)
    ensures
        r@ == window_title_of(path@),
{
    let mut s = String::from_str("Monocle — ");
    match path_file_name(path) {
        Some(n) => s.append(n.as_str()),
        None => {},
    }
    assert(s@ =~= window_title_of(path@));
    s
}

// ---------------------------------------------------------------------------
// Pending files
// ---------------------------------------------------------------------------

/// The map that a list of `(label, path)` entries stands for.
pub open spec fn pending_map(s: Seq<(String, String)>) -> Map<Seq<char>, Seq<char>>
    decreases s.len(),
{
    if s.len() == 0 {
        Map::empty()
    } else {
        pending_map(s.drop_last()).insert(s.last().0@, s.last().1@)
    }
}

/// No label occurs twice.
pub open spec fn distinct_labels(s: Seq<(String, String)>) -> bool {
    forall|i: int, j: int| 0 <= i < s.len() && 0 <= j < s.len() && i != j ==> s[i].0@ != s[j].0@
}

proof fn lemma_pending_absent(s: Seq<(String, String)>, k: Seq<char>)
    requires
        forall|i: int| 0 <= i < s.len() ==> s[i].0@ != k,
    ensures
        !pending_map(s).dom().contains(k),
    decreases s.len(),
{
    if s.len() > 0 {
        lemma_pending_absent(s.drop_last(), k);
    }
}

proof fn lemma_pending_at(s: Seq<(String, String)>, i: int)
    requires
        distinct_labels(s),
        0 <= i < s.len(),
    ensures
        pending_map(s).dom().contains(s[i].0@),
        pending_map(s)[s[i].0@] == s[i].1@,
    decreases s.len(),
{
    if i < s.len() - 1 {
        let d = s.drop_last();
        assert(distinct_labels(d));
        assert(d[i] == s[i]);
        lemma_pending_at(d, i);
    }
}

proof fn lemma_pending_update(s: Seq<(String, String)>, i: int, e: (String, String))
    requires
        distinct_labels(s),
        0 <= i < s.len(),
        e.0@ == s[i].0@,
    ensures
        distinct_labels(s.update(i, e)),
        pending_map(s.update(i, e)) == pending_map(s).insert(e.0@, e.1@),
    decreases s.len(),
{
    let u = s.update(i, e);
    let d = s.drop_last();
    if i == s.len() - 1 {
        assert(u.drop_last() =~= d);
        assert forall|j: int| 0 <= j < d.len() implies d[j].0@ != e.0@ by {
            assert(d[j] == s[j]);
        }
        lemma_pending_absent(d, e.0@);
        assert(pending_map(s) == pending_map(d).insert(s[i].0@, s[i].1@));
        assert(pending_map(u) =~= pending_map(s).insert(e.0@, e.1@));
    } else {
        assert(distinct_labels(d));
        lemma_pending_update(d, i, e);
        assert(u.drop_last() =~= d.update(i, e));
        assert(u.last() == s.last());
        assert(s.last().0@ != e.0@);
        assert(pending_map(u) =~= pending_map(s).insert(e.0@, e.1@));
    }
}

proof fn lemma_pending_remove(s: Seq<(String, String)>, i: int)
    requires
        distinct_labels(s),
        0 <= i < s.len(),
    ensures
        distinct_labels(s.remove(i)),
        pending_map(s.remove(i)) == pending_map(s).remove(s[i].0@),
    decreases s.len(),
{
    let r = s.remove(i);
    let d = s.drop_last();
    let k = s[i].0@;
    assert forall|a: int, b: int| 0 <= a < r.len() && 0 <= b < r.len() && a != b implies r[a].0@
        != r[b].0@ by {
        let a2 = if a < i { a } else { a + 1 };
        let b2 = if b < i { b } else { b + 1 };
        assert(r[a] == s[a2]);
        assert(r[b] == s[b2]);
    }
    if i == s.len() - 1 {
        assert(r =~= d);
        assert forall|j: int| 0 <= j < d.len() implies d[j].0@ != k by {
            assert(d[j] == s[j]);
        }
        lemma_pending_absent(d, k);
        assert(pending_map(r) =~= pending_map(s).remove(k));
    } else {
        assert(distinct_labels(d));
        assert(d[i] == s[i]);
        lemma_pending_remove(d, i);
        assert(r.drop_last() =~= d.remove(i));
        assert(r.last() == s.last());
        assert(s.last().0@ != k);
        assert(pending_map(r) =~= pending_map(s).remove(k));
    }
}

// ---------------------------------------------------------------------------
// Window state
// ---------------------------------------------------------------------------

/// The viewer's window bookkeeping.
pub struct Windows {
    /// The main window has not loaded a file yet.
    main_available: bool,
    /// The number of the next new window.
    next_id: u32,
    /// Files waiting for the window with the given label to ask for them.
    pending: Vec<(String, String)>,
}

pub struct WindowsView {
    pub main_available: bool,
    pub next_id: nat,
    pub pending: Map<Seq<char>, Seq<char>>,
}

impl View for Windows {
    type V = WindowsView;

    closed spec fn view(&self) -> WindowsView {
        WindowsView {
            main_available: self.main_available,
            next_id: self.next_id as nat,
            pending: pending_map(self.pending@),
        }
    }
}

/// A window to be made: its label and its title.
pub struct WindowSpec {
    pub label: String,
    pub title: String,
}

/// Where a file opened from the desktop goes.
pub enum OpenAction {
    /// To the main window, which is told to ask for its pending file.
    ShowInMain,
    /// To a new window.
    NewWindow(WindowSpec),
}

/// The window counter wraps, as an atomic `u32` does.
pub open spec fn next_window_id(id: nat) -> nat {
    if id + 1 < 0x1_0000_0000 {
        id + 1
    } else {
        0
    }
}

/// State after a new window for `path` is made.
pub open spec fn new_window_step(w: WindowsView, path: Seq<char>) -> WindowsView {
    WindowsView {
        next_id: next_window_id(w.next_id),
        pending: w.pending.insert(window_label_of(w.next_id), path),
        ..w
    }
}

/// State after a file is opened from the desktop.
pub open spec fn open_file_step(w: WindowsView, path: Seq<char>) -> WindowsView {
    if w.main_available {
        WindowsView {
            main_available: false,
            pending: w.pending.insert(main_label(), path),
            ..w
        }
    } else {
        new_window_step(w, path)
    }
}

/// State after the window `label` reports that it loaded a file.
pub open spec fn mark_occupied_step(w: WindowsView, label: Seq<char>) -> WindowsView {
    if label == main_label() {
        WindowsView { main_available: false, ..w }
    } else {
        w
    }
}

/// The file the window `label` is to show, if one is waiting.
pub open spec fn pending_for(w: WindowsView, label: Seq<char>) -> Option<Seq<char>> {
    if w.pending.dom().contains(label) {
        Some(w.pending[label])
    } else {
        None
    }
}

/// State after the window `label` took its pending file.
pub open spec fn take_pending_step(w: WindowsView, label: Seq<char>) -> WindowsView {
    WindowsView { pending: w.pending.remove(label), ..w }
}

impl Windows {
    /// Every label waits for at most one file.
    #[verifier::type_invariant]
    spec fn well_formed(&self) -> bool {
        distinct_labels(self.pending@)
    }

    /// At start-up the main window is free and nothing is pending.
    pub fn new() -> (r: Windows)
        ensures
            r@ == (WindowsView { main_available: true, next_id: 0, pending: Map::empty() }),
    {
        let r = Windows { main_available: true, next_id: 0, pending: Vec::new() };
        assert(r@.pending =~= Map::<Seq<char>, Seq<char>>::empty());
        r
    }

    fn find(&self, label: &str) -> (r: Option<usize>)
        ensures
            match r {
                Some(i) => i < self.pending@.len() && self.pending@[i as int].0@ == label@,
                None => forall|j: int|
                    0 <= j < self.pending@.len() ==> self.pending@[j].0@ != label@,
            },
    {
        let mut i: usize = 0;
        while i < self.pending.len()
            invariant
                0 <= i <= self.pending@.len(),
                forall|j: int| 0 <= j < i ==> self.pending@[j].0@ != label@,
            decreases self.pending@.len() - i,
        {
            if text_eq(self.pending[i].0.as_str(), label) {
                return Some(i);
            }
            i = i + 1;
        }
        None
    }

    fn put(&mut self, label: String, path: String)
        ensures
            final(self)@ == (WindowsView {
                pending: old(self)@.pending.insert(label@, path@),
                ..old(self)@
            }),
    {
        proof {
            use_type_invariant(&*self);
        }
        let ghost old_pending = self.pending@;
        let found = self.find(label.as_str());
        let mut pending: Vec<(String, String)> = Vec::new();
        std::mem::swap(&mut pending, &mut self.pending);
        match found {
            Some(i) => {
                proof {
                    lemma_pending_update(old_pending, i as int, (label, path));
                }
                pending.set(i, (label, path));
            },
            None => {
                let ghost e = (label, path);
                proof {
                    let pushed = old_pending.push(e);
                    assert(pushed.drop_last() =~= old_pending);
                    assert forall|a: int, b: int|
                        0 <= a < pushed.len() && 0 <= b < pushed.len() && a != b implies pushed[a].0@
                        != pushed[b].0@ by {
                        if a < old_pending.len() && b < old_pending.len() {
                            assert(pushed[a] == old_pending[a]);
                            assert(pushed[b] == old_pending[b]);
                        } else if a < old_pending.len() {
                            assert(pushed[a] == old_pending[a]);
                        } else if b < old_pending.len() {
                            assert(pushed[b] == old_pending[b]);
                        }
                    }
                }
                pending.push((label, path));
                proof {
                    assert(pending@ =~= old_pending.push(e));
                }
            },
        }
        self.pending = pending;
    }

    /// Makes room for a new window showing `path`: its label and title, with
    /// the file left pending for it.
    pub fn new_window(&mut self, path: &str) -> (r: WindowSpec)
        ensures
            final(self)@ == new_window_step(old(self)@, path@),
            r.label@ == window_label_of(old(self)@.next_id),
            r.title@ == window_title_of(path@),
    {
        proof {
            use_type_invariant(&*self);
        }
        let id = self.next_id;
        self.next_id = if id < u32::MAX {
            id + 1
        } else {
            0
        };
        let label = window_label(id);
        let title = window_title(path);
        self.put(label.clone(), String::from_str(path));
        WindowSpec { label, title }
    }

    /// Routes a file opened from the desktop: to the main window while it
    /// has not loaded a file, else to a new window.
    pub fn open_file(&mut self, path: &str) -> (r: OpenAction)
        ensures
            final(self)@ == open_file_step(old(self)@, path@),
            old(self)@.main_available <==> r is ShowInMain,
            r matches OpenAction::NewWindow(spec) ==> spec.label@ == window_label_of(
                old(self)@.next_id,
            ) && spec.title@ == window_title_of(path@),
    {
        proof {
            use_type_invariant(&*self);
        }
        if self.main_available {
            self.main_available = false;
            self.put(String::from_str("main"), String::from_str(path));
            OpenAction::ShowInMain
        } else {
            OpenAction::NewWindow(self.new_window(path))
        }
    }

    /// Records that the window `label` loaded a file.
    pub fn mark_occupied(&mut self, label: &str)
        ensures
            final(self)@ == mark_occupied_step(old(self)@, label@),
    {
        proof {
            use_type_invariant(&*self);
        }
        if text_eq(label, "main") {
            self.main_available = false;
        }
    }

    /// Hands the window `label` its pending file, once.
    pub fn take_pending(&mut self, label: &str) -> (r: Option<String>)
        ensures
            r.deep_view() == pending_for(old(self)@, label@),
            final(self)@ == take_pending_step(old(self)@, label@),
    {
        proof {
            use_type_invariant(&*self);
        }
        let ghost old_pending = self.pending@;
        match self.find(label) {
            Some(i) => {
                proof {
                    lemma_pending_at(old_pending, i as int);
                    lemma_pending_remove(old_pending, i as int);
                }
                let mut pending: Vec<(String, String)> = Vec::new();
                std::mem::swap(&mut pending, &mut self.pending);
                let (_, path) = pending.remove(i);
                self.pending = pending;
                Some(path)
            },
            None => {
                proof {
                    lemma_pending_absent(old_pending, label@);
                    assert(pending_map(old_pending).remove(label@) =~= pending_map(old_pending));
                }
                None
            },
        }
    }

    /// Whether the main window has not loaded a file yet.
    pub fn main_available(&self) -> (r: bool)
        ensures
            r == self@.main_available,
    {
        self.main_available
    }
}

// ---------------------------------------------------------------------------
// File changes
// ---------------------------------------------------------------------------

/// The kind of a file-system event.
pub enum ChangeKind {
    Modify,
    Create,
    Other,
}

/// An event path whose file name is `target`.
pub open spec fn names_file(name: Option<Vec<u8>>, target: Seq<u8>) -> bool {
    name matches Some(n) && n@ == target
}

fn bytes_eq(a: &Vec<u8>, b: &Vec<u8>) -> (r: bool)
    ensures
        r == (a@ == b@),
{
    if a.len() != b.len() {
        return false;
    }
    let mut k: usize = 0;
    while k < a.len()
        invariant
            a@.len() == b@.len(),
            0 <= k <= a@.len(),
            forall|j: int| 0 <= j < k ==> a@[j] == b@[j],
        decreases a@.len() - k,
    {
        if a[k] != b[k] {
            return false;
        }
        k = k + 1;
    }
    assert(a@ =~= b@);
    true
}

/// Whether a file-system event concerns the watched file: a modification or
/// creation of a path whose file name (as raw bytes) is `target`.
pub fn is_change_to(kind: &ChangeKind, names: &Vec<Option<Vec<u8>>>, target: &Vec<u8>) -> (r:
    bool)
    ensures
        r == ((kind is Modify || kind is Create) && exists|i: int|
            0 <= i < names@.len() && names_file(#[trigger] names@[i], target@)),
{
    let relevant = match kind {
        ChangeKind::Modify => true,
        ChangeKind::Create => true,
        ChangeKind::Other => false,
    };
    if !relevant {
        return false;
    }
    let mut i: usize = 0;
    while i < names.len()
        invariant
            0 <= i <= names@.len(),
            kind is Modify || kind is Create,
            forall|j: int| 0 <= j < i ==> !names_file(#[trigger] names@[j], target@),
        decreases names@.len() - i,
    {
        match &names[i] {
            Some(n) => {
                if bytes_eq(n, target) {
                    assert(names_file(names@[i as int], target@));
                    return true;
                }
            },
            None => {},
        }
        i = i + 1;
    }
    false
}

// ---------------------------------------------------------------------------
// Laws
// ---------------------------------------------------------------------------

/// A file opened while the main window is free reaches the main window, and
/// only once.
pub proof fn law_opened_file_reaches_main_once(w: WindowsView, path: Seq<char>)
    requires
        w.main_available,
    ensures
        pending_for(open_file_step(w, path), main_label()) == Some(path),
        pending_for(
            take_pending_step(open_file_step(w, path), main_label()),
            main_label(),
        ) is None,
        !open_file_step(w, path).main_available,
{
}

/// A file for a new window is handed to that window, and only once.
pub proof fn law_new_window_gets_its_file_once(w: WindowsView, path: Seq<char>)
    ensures
        pending_for(new_window_step(w, path), window_label_of(w.next_id)) == Some(path),
        pending_for(
            take_pending_step(new_window_step(w, path), window_label_of(w.next_id)),
            window_label_of(w.next_id),
        ) is None,
{
}

/// Once the main window is taken it is never freed: no step makes it
/// available again, and making a new window leaves the main window's pending
/// file alone.
pub proof fn law_main_window_stays_taken(w: WindowsView, path: Seq<char>, label: Seq<char>)
    ensures
        !w.main_available ==> !open_file_step(w, path).main_available,
        !w.main_available ==> !mark_occupied_step(w, label).main_available,
        !w.main_available ==> !take_pending_step(w, label).main_available,
        new_window_step(w, path).main_available == w.main_available,
        pending_for(new_window_step(w, path), "main"@) == pending_for(w, "main"@),
        !w.main_available ==> pending_for(open_file_step(w, path), "main"@) == pending_for(
            w,
            "main"@,
        ),
{
    law_window_labels_distinct(w.next_id, w.next_id);
    assert(window_label_of(w.next_id) != "main"@);
}

/// Once the main window has loaded a file, an opened file gets a new window.
pub proof fn law_occupied_main_means_new_window(w: WindowsView, path: Seq<char>)
    ensures
        open_file_step(mark_occupied_step(w, main_label()), path) == new_window_step(
            mark_occupied_step(w, main_label()),
            path,
        ),
{
}

proof fn lemma_decimal_len(n: nat)
    ensures
        decimal_of(n).len() >= 1,
        n >= 10 ==> decimal_of(n).len() >= 2,
    decreases n,
{
    if n >= 10 {
        lemma_decimal_len(n / 10);
    }
}

proof fn lemma_decimal_injective(a: nat, b: nat)
    requires
        decimal_of(a) == decimal_of(b),
    ensures
        a == b,
    decreases a,
{
    lemma_decimal_len(a);
    lemma_decimal_len(b);
    if a >= 10 && b >= 10 {
        let da = decimal_of(a);
        assert(da.last() == digit_of(a % 10));
        assert(decimal_of(b).last() == digit_of(b % 10));
        assert(a % 10 == b % 10);
        assert(decimal_of(a / 10) =~= da.drop_last());
        assert(decimal_of(b / 10) =~= decimal_of(b).drop_last());
        lemma_decimal_injective(a / 10, b / 10);
    } else if a < 10 && b < 10 {
        assert(decimal_of(a)[0] == digit_of(a));
        assert(decimal_of(b)[0] == digit_of(b));
    }
}

/// Windows with different numbers have different labels, and no new window
/// is labelled `main`.
pub proof fn law_window_labels_distinct(a: nat, b: nat)
    ensures
        window_label_of(a) == window_label_of(b) ==> a == b,
        window_label_of(a) != main_label(),
{
    reveal_strlit("monocle-");
    reveal_strlit("main");
    if window_label_of(a) == window_label_of(b) {
        assert(decimal_of(a) =~= window_label_of(a).subrange(8, window_label_of(a).len() as int));
        assert(decimal_of(b) =~= window_label_of(b).subrange(8, window_label_of(b).len() as int));
        lemma_decimal_injective(a, b);
    }
    assert(window_label_of(a).len() != main_label().len()) by {
        lemma_decimal_len(a);
    }
}

} // verus!
