//! The model behind the `~/.ssh/config` import dialog: the hosts that were
//! read, which of them are ticked, and what each user action leads to.
//!
//! Drawing the dialog and talking to the server repository are left to the
//! caller, which hands the outcome of reading the file in, performs the
//! `DialogEffect` that an action returns, and reports the result of an import.

use vstd::prelude::*;

use crate::ssh_command::{
    has_pair, law_each_option_present, law_ssh_args_shape, port_args, ssh_args_spec,
};
use crate::ssh_config::{
    hosts_view, opt_str_view, parse_ssh_config, parse_ssh_config_spec, parse_u16, SshConfigHost,
    SshConfigHostView,
};
use crate::text::{decimal, law_decimal_roundtrip, push_decimal};
use crate::types::{AuthType, SshServerInfo};

verus! {

/// What the user can do in the dialog.
#[derive(Clone, Debug)]
pub enum SshConfigImportAction {
    ToggleHost(usize),
    SelectAll,
    DeselectAll,
    Import,
    Cancel,
}

/// What the dialog reports to its owner.
#[derive(Clone, Debug)]
pub enum SshConfigImportEvent {
    ImportComplete(Vec<String>),
    Cancelled,
    Error(String),
}

/// Whether reading the config gave hosts to offer.
#[derive(Clone, Debug)]
pub enum ImportState {
    Ready,
    Empty,
    Error(String),
}

/// `ImportState` with its message taken as characters.
pub enum ImportStateView {
    Ready,
    Empty,
    Error(Seq<char>),
}

impl View for ImportState {
    type V = ImportStateView;

    open spec fn view(&self) -> ImportStateView {
        match self {
            ImportState::Ready => ImportStateView::Ready,
            ImportState::Empty => ImportStateView::Empty,
            ImportState::Error(m) => ImportStateView::Error(m@),
        }
    }
}

/// What the owner of the dialog is to do after an action.
#[derive(Clone, Debug)]
pub enum DialogEffect {
    /// Nothing changed.
    Nothing,
    /// The selection changed: draw the dialog again.
    Redraw,
    /// Create these servers (name and record) in the repository, then send
    /// the notices of `import_outcome_notices` for the outcome.
    CreateServers(Vec<(String, SshServerInfo)>),
    /// Report this event.
    Emit(SshConfigImportEvent),
}

/// The dialog's hosts, each with its tick.
pub struct SshConfigImportDialog {
    hosts: Vec<SshConfigHost>,
    selected: Vec<bool>,
    state: ImportState,
}

/// The contents of the dialog.
pub struct DialogView {
    pub hosts: Seq<SshConfigHostView>,
    pub selected: Seq<bool>,
    pub state: ImportStateView,
}

impl View for SshConfigImportDialog {
    type V = DialogView;

    closed spec fn view(&self) -> DialogView {
        DialogView { hosts: hosts_view(self.hosts@), selected: self.selected@, state: self.state@ }
    }
}

impl SshConfigImportDialog {
    /// Every host has exactly one tick: kept by every operation.
    #[verifier::type_invariant]
    spec fn ticks_match_hosts(&self) -> bool {
        self.hosts@.len() == self.selected@.len()
    }

    /// Every host has exactly one tick (the type invariant, over the view).
    pub open spec fn wf(&self) -> bool {
        self@.hosts.len() == self@.selected.len()
    }
}

/// How many ticks are set.
pub open spec fn count_selected(sel: Seq<bool>) -> nat
    decreases sel.len(),
{
    if sel.len() == 0 {
        0
    } else {
        count_selected(sel.drop_last()) + if sel.last() {
            1nat
        } else {
            0nat
        }
    }
}

/// The positions of the set ticks, in increasing order.
pub open spec fn selected_indices(sel: Seq<bool>) -> Seq<int>
    decreases sel.len(),
{
    if sel.len() == 0 {
        Seq::empty()
    } else {
        let r = selected_indices(sel.drop_last());
        if sel.last() {
            r.push(sel.len() - 1)
        } else {
            r
        }
    }
}

/// The dialog with the tick at `i` flipped; unchanged where there is no host `i`.
pub open spec fn toggle_spec(v: DialogView, i: int) -> DialogView {
    if 0 <= i < v.selected.len() {
        DialogView { selected: v.selected.update(i, !v.selected[i]), ..v }
    } else {
        v
    }
}

/// The dialog with every tick set to `b`.
pub open spec fn select_all_spec(v: DialogView, b: bool) -> DialogView {
    DialogView { selected: Seq::new(v.selected.len(), |i: int| b), ..v }
}

/// The dialog as it opens on the outcome of reading the config file: on a
/// read error, the error and no hosts; where the file yields no host, the
/// empty state; otherwise every parsed host, all ticked.
pub open spec fn opened_spec(read: Result<Seq<char>, Seq<char>>) -> DialogView {
    match read {
        Ok(text) => {
            let parsed = parse_ssh_config_spec(text);
            if parsed.len() == 0 {
                DialogView { hosts: Seq::empty(), selected: Seq::empty(), state: ImportStateView::Empty }
            } else {
                DialogView {
                    hosts: parsed,
                    selected: Seq::new(parsed.len(), |i: int| true),
                    state: ImportStateView::Ready,
                }
            }
        },
        Err(e) => DialogView {
            hosts: Seq::empty(),
            selected: Seq::empty(),
            state: ImportStateView::Error(e),
        },
    }
}

/// Whether `s` is the server record made from the config block `h`: the host
/// name (or the alias) as host, the port or 22, the user or no user name, key
/// authentication exactly where there is an identity file, the options copied,
/// no node id or last connection, and `ssh_config` as source.
pub open spec fn server_info_of(h: SshConfigHostView, s: SshServerInfo) -> bool {
    &&& s.node_id@ == Seq::<char>::empty()
    &&& s.host@ == match h.host_name {
        Some(n) => n,
        None => h.alias,
    }
    &&& s.port == match h.port {
        Some(p) => p,
        None => 22u16,
    }
    &&& s.username@ == match h.user {
        Some(u) => u,
        None => Seq::<char>::empty(),
    }
    &&& s.auth_type == if h.identity_file is Some {
        AuthType::Key
    } else {
        AuthType::Password
    }
    &&& opt_str_view(s.key_path) == h.identity_file
    &&& s.last_connected_at is None
    &&& opt_str_view(s.proxy_jump) == h.proxy_jump
    &&& s.connect_timeout_secs == h.connect_timeout_secs
    &&& s.keepalive_interval_secs == h.server_alive_interval_secs
    &&& s.keepalive_count_max == h.server_alive_count_max
    &&& opt_str_view(s.source) == Some("ssh_config"@)
    &&& opt_str_view(s.host_key_algorithms) == h.host_key_algorithms
    &&& opt_str_view(s.pubkey_accepted_key_types) == h.pubkey_accepted_key_types
}

/// A copy of an optional string.
fn clone_opt_string(o: &Option<String>) -> (res: Option<String>)
    ensures
        res == *o,
{
    match o {
        Some(s) => Some(s.clone()),
        None => None,
    }
}

/// The server record for a config block. Where the block has no `HostName`,
/// the alias is the host.
pub fn config_host_to_server_info(host: &SshConfigHost) -> (info: SshServerInfo)
    ensures
        server_info_of(host@, info),
{
    let has_identity = host.identity_file.is_some();
    SshServerInfo {
        node_id: String::new(),
        host: match &host.host_name {
            Some(n) => n.clone(),
            None => host.alias.clone(),
        },
        port: match host.port {
            Some(p) => p,
            None => 22,
        },
        username: match &host.user {
            Some(u) => u.clone(),
            None => String::new(),
        },
        auth_type: if has_identity {
            AuthType::Key
        } else {
            AuthType::Password
        },
        key_path: clone_opt_string(&host.identity_file),
        last_connected_at: None,
        proxy_jump: clone_opt_string(&host.proxy_jump),
        connect_timeout_secs: host.connect_timeout_secs,
        keepalive_interval_secs: host.server_alive_interval_secs,
        keepalive_count_max: host.server_alive_count_max,
        source: Some("ssh_config".to_owned()),
        host_key_algorithms: clone_opt_string(&host.host_key_algorithms),
        pubkey_accepted_key_types: clone_opt_string(&host.pubkey_accepted_key_types),
    }
}


/// The names and server records that an import creates: one per ticked host,
/// in the order of the hosts.
pub open spec fn import_items_ok(v: DialogView, items: Seq<(String, SshServerInfo)>) -> bool {
    let idx = selected_indices(v.selected);
    &&& items.len() == idx.len()
    &&& forall|k: int|
        0 <= k < items.len() ==> {
            &&& (#[trigger] items[k]).0@ == v.hosts[idx[k]].alias
            &&& server_info_of(v.hosts[idx[k]], items[k].1)
        }
}

/// An import creates exactly as many servers as hosts are ticked, each from
/// a ticked host, in order.
pub proof fn law_import_matches_ticks(sel: Seq<bool>)
    ensures
        selected_indices(sel).len() == count_selected(sel),
        forall|k: int|
            0 <= k < selected_indices(sel).len() ==> 0 <= #[trigger] selected_indices(sel)[k]
                < sel.len() && sel[selected_indices(sel)[k]],
    decreases sel.len(),
{
    if sel.len() > 0 {
        law_import_matches_ticks(sel.drop_last());
    }
}

/// `sel` with the tick at `idx` set to `b`.
fn with_tick(sel: &Vec<bool>, idx: usize, b: bool) -> (res: Vec<bool>)
    requires
        idx < sel.len(),
    ensures
        res@ == sel@.update(idx as int, b),
{
    let mut res: Vec<bool> = Vec::new();
    let mut i: usize = 0;
    while i < sel.len()
        invariant
            i <= sel.len(),
            idx < sel.len(),
            res@ == sel@.update(idx as int, b).take(i as int),
        decreases sel.len() - i,
    {
        if i == idx {
            res.push(b);
        } else {
            res.push(sel[i]);
        }
        i = i + 1;
        assert(res@ == sel@.update(idx as int, b).take(i as int));
    }
    assert(sel@.update(idx as int, b).take(sel.len() as int) == sel@.update(idx as int, b));
    res
}

/// `n` ticks, each set to `b`.
fn all_ticks(n: usize, b: bool) -> (res: Vec<bool>)
    ensures
        res@ == Seq::new(n as nat, |k: int| b),
{
    let mut res: Vec<bool> = Vec::new();
    let mut i: usize = 0;
    while i < n
        invariant
            i <= n,
            res@ == Seq::new(i as nat, |k: int| b),
        decreases n - i,
    {
        res.push(b);
        i = i + 1;
    }
    res
}

impl SshConfigImportDialog {
    /// Opens the dialog on the outcome of reading `~/.ssh/config`: its text,
    /// or the message of the error that reading gave. Every host starts out
    /// ticked.
    pub fn new(config: Result<String, String>) -> (dialog: Self)
        ensures
            dialog.wf(),
            dialog@ == opened_spec(
                match config {
                    Ok(t) => Ok(t@),
                    Err(e) => Err(e@),
                },
            ),
    {
        match config {
            Ok(text) => {
                let parsed = parse_ssh_config(text.as_str());
                if parsed.len() == 0 {
                    let d = SshConfigImportDialog {
                        hosts: Vec::new(),
                        selected: Vec::new(),
                        state: ImportState::Empty,
                    };
                    assert(d@.hosts == Seq::<SshConfigHostView>::empty());
                    d
                } else {
                    let mut selected: Vec<bool> = Vec::new();
                    let mut i: usize = 0;
                    while i < parsed.len()
                        invariant
                            i <= parsed.len(),
                            selected@ == Seq::new(i as nat, |k: int| true),
                        decreases parsed.len() - i,
                    {
                        selected.push(true);
                        i = i + 1;
                    }
                    SshConfigImportDialog { hosts: parsed, selected, state: ImportState::Ready }
                }
            },
            Err(e) => {
                let d = SshConfigImportDialog {
                    hosts: Vec::new(),
                    selected: Vec::new(),
                    state: ImportState::Error(e),
                };
                assert(d@.hosts == Seq::<SshConfigHostView>::empty());
                d
            },
        }
    }

    /// How many hosts are ticked.
    pub fn selected_count(&self) -> (n: usize)
        ensures
            self.wf(),
            n == count_selected(self@.selected),
            n <= self@.hosts.len(),
    {
        proof {
            use_type_invariant(self);
        }
        let mut n: usize = 0;
        let mut i: usize = 0;
        while i < self.selected.len()
            invariant
                i <= self.selected.len(),
                n == count_selected(self.selected@.take(i as int)),
                n <= i,
            decreases self.selected.len() - i,
        {
            assert(self.selected@.take(i + 1).drop_last() == self.selected@.take(i as int));
            if self.selected[i] {
                n = n + 1;
            }
            i = i + 1;
        }
        assert(self.selected@.take(self.selected.len() as int) == self.selected@);
        n
    }

    /// Flips the tick of host `idx`. Returns whether there is such a host
    /// (and so whether the dialog must be drawn again).
    pub fn on_toggle_host(&mut self, idx: usize) -> (changed: bool)
        ensures
            old(self).wf(),
            final(self).wf(),
            final(self)@ == toggle_spec(old(self)@, idx as int),
            changed == (idx < old(self)@.hosts.len()),
    {
        proof {
            use_type_invariant(&*self);
        }
        if idx < self.selected.len() {
            let b = self.selected[idx];
            self.selected = with_tick(&self.selected, idx, !b);
            true
        } else {
            false
        }
    }

    /// Ticks every host.
    pub fn on_select_all(&mut self)
        ensures
            old(self).wf(),
            final(self).wf(),
            final(self)@ == select_all_spec(old(self)@, true),
    {
        proof {
            use_type_invariant(&*self);
        }
        self.set_all(true);
    }

    /// Unticks every host.
    pub fn on_deselect_all(&mut self)
        ensures
            old(self).wf(),
            final(self).wf(),
            final(self)@ == select_all_spec(old(self)@, false),
    {
        proof {
            use_type_invariant(&*self);
        }
        self.set_all(false);
    }

    fn set_all(&mut self, b: bool)
        ensures
            old(self).wf(),
            final(self).wf(),
            final(self)@ == select_all_spec(old(self)@, b),
    {
        proof {
            use_type_invariant(&*self);
        }
        self.selected = all_ticks(self.selected.len(), b);
    }

    /// The name and server record of every ticked host, in order.
    pub fn on_import(&self) -> (items: Vec<(String, SshServerInfo)>)
        ensures
            self.wf(),
            import_items_ok(self@, items@),
    {
        proof {
            use_type_invariant(self);
        }
        let mut items: Vec<(String, SshServerInfo)> = Vec::new();
        let mut i: usize = 0;
        while i < self.hosts.len()
            invariant
                self.wf(),
                i <= self.hosts.len(),
                import_items_ok(
                    DialogView { selected: self@.selected.take(i as int), ..self@ },
                    items@,
                ),
            decreases self.hosts.len() - i,
        {
            let ghost sel = self@.selected.take(i as int);
            assert(self@.selected.take(i + 1).drop_last() == sel);
            proof {
                law_import_matches_ticks(sel);
            }
            if self.selected[i] {
                let host = &self.hosts[i];
                assert(self@.hosts[i as int] == host@);
                let name = host.alias.clone();
                let info = config_host_to_server_info(host);
                items.push((name, info));
            }
            i = i + 1;
        }
        assert(self@.selected.take(self.hosts.len() as int) == self@.selected);
        items
    }

    /// Carries out one user action and says what the owner must do next:
    /// draw again after a change of ticks, create the ticked servers on
    /// `Import` (nothing where none is ticked), report `Cancelled` on `Cancel`.
    pub fn handle_action(&mut self, action: &SshConfigImportAction) -> (effect: DialogEffect)
        ensures
            old(self).wf(),
            final(self).wf(),
            match *action {
                SshConfigImportAction::ToggleHost(i) => {
                    &&& final(self)@ == toggle_spec(old(self)@, i as int)
                    &&& if i < old(self)@.selected.len() {
                        effect is Redraw
                    } else {
                        effect is Nothing
                    }
                },
                SshConfigImportAction::SelectAll => final(self)@ == select_all_spec(
                    old(self)@,
                    true,
                ) && effect is Redraw,
                SshConfigImportAction::DeselectAll => final(self)@ == select_all_spec(
                    old(self)@,
                    false,
                ) && effect is Redraw,
                SshConfigImportAction::Import => {
                    &&& final(self)@ == old(self)@
                    &&& if count_selected(old(self)@.selected) == 0 {
                        effect is Nothing
                    } else {
                        effect matches DialogEffect::CreateServers(items) && import_items_ok(
                            old(self)@,
                            items@,
                        )
                    }
                },
                SshConfigImportAction::Cancel => final(self)@ == old(self)@ && effect matches DialogEffect::Emit(
                    SshConfigImportEvent::Cancelled,
                ),
            },
    {
        proof {
            use_type_invariant(&*self);
        }
        match action {
            SshConfigImportAction::ToggleHost(i) => {
                if self.on_toggle_host(*i) {
                    DialogEffect::Redraw
                } else {
                    DialogEffect::Nothing
                }
            },
            SshConfigImportAction::SelectAll => {
                self.on_select_all();
                DialogEffect::Redraw
            },
            SshConfigImportAction::DeselectAll => {
                self.on_deselect_all();
                DialogEffect::Redraw
            },
            SshConfigImportAction::Import => {
                let items = self.on_import();
                proof {
                    law_import_matches_ticks(self@.selected);
                }
                if items.len() == 0 {
                    DialogEffect::Nothing
                } else {
                    DialogEffect::CreateServers(items)
                }
            },
            SshConfigImportAction::Cancel => DialogEffect::Emit(SshConfigImportEvent::Cancelled),
        }
    }
}

/// The label of a host in the list: the alias, followed by the host name in
/// parentheses where that differs from the alias (`?` where there is none).
pub open spec fn host_label_spec(h: SshConfigHostView) -> Seq<char> {
    if h.host_name != Some(h.alias) {
        h.alias + "  ("@ + match h.host_name {
            Some(n) => n,
            None => "?"@,
        } + ")"@
    } else {
        h.alias
    }
}

/// The label of `host` in the dialog's list.
pub fn host_label(host: &SshConfigHost) -> (label: String)
    ensures
        label@ == host_label_spec(host@),
{
    let same = match &host.host_name {
        Some(n) => *n == host.alias,
        None => false,
    };
    if same {
        host.alias.clone()
    } else {
        let mut label = host.alias.clone();
        label.append("  (");
        match &host.host_name {
            Some(n) => label.append(n.as_str()),
            None => label.append("?"),
        }
        label.append(")");
        label
    }
}

impl SshConfigImportDialog {
    /// How many hosts the dialog lists.
    pub fn host_count(&self) -> (n: usize)
        ensures
            n == self@.hosts.len(),
    {
        proof {
            use_type_invariant(self);
        }
        self.hosts.len()
    }

    /// Host `i` of the list.
    pub fn host(&self, i: usize) -> (h: &SshConfigHost)
        requires
            i < self@.hosts.len(),
        ensures
            h@ == self@.hosts[i as int],
    {
        proof {
            use_type_invariant(self);
        }
        &self.hosts[i]
    }

    /// Whether host `i` is ticked.
    pub fn is_selected(&self, i: usize) -> (b: bool)
        requires
            i < self@.selected.len(),
        ensures
            self.wf(),
            b == self@.selected[i as int],
    {
        proof {
            use_type_invariant(self);
        }
        self.selected[i]
    }

    /// The count shown above the list: `N selected`.
    pub fn selected_label(&self) -> (label: String)
        ensures
            self.wf(),
            label@ == decimal(count_selected(self@.selected)) + " selected"@,
    {
        proof {
            use_type_invariant(self);
        }
        let n = self.selected_count();
        let mut label = String::new();
        push_decimal(&mut label, n as u64);
        label.append(" selected");
        label
    }

    /// What reading the config gave.
    pub fn state(&self) -> (st: &ImportState)
        ensures
            st@ == self@.state,
    {
        proof {
            use_type_invariant(self);
        }
        &self.state
    }
}

/// What the owner of the dialog sends once an import has run.
#[derive(Clone, Debug)]
pub enum ImportNotice {
    /// The server tree changed: tell whoever shows it.
    TreeChanged,
    /// Report this event from the dialog.
    Emit(SshConfigImportEvent),
}

/// The notices to send, in order, after creating the servers of an import:
/// on success the tree-changed notice and then `ImportComplete` with the new
/// node ids; on failure only the `Error` event, and no tree-changed notice.
pub fn import_outcome_notices(result: Result<Vec<String>, String>) -> (notices: Vec<ImportNotice>)
    ensures
        match result {
            Ok(ids) => notices@ == seq![
                ImportNotice::TreeChanged,
                ImportNotice::Emit(SshConfigImportEvent::ImportComplete(ids)),
            ],
            Err(e) => notices@ == seq![ImportNotice::Emit(SshConfigImportEvent::Error(e))],
        },
{
    let ok = result.is_ok();
    let event = import_outcome_event(result);
    let mut notices: Vec<ImportNotice> = Vec::new();
    if ok {
        notices.push(ImportNotice::TreeChanged);
    }
    notices.push(ImportNotice::Emit(event));
    notices
}

/// The event that reports the outcome of creating the servers: the new node
/// ids, or the error's message.
pub fn import_outcome_event(result: Result<Vec<String>, String>) -> (event: SshConfigImportEvent)
    ensures
        match result {
            Ok(ids) => event == SshConfigImportEvent::ImportComplete(ids),
            Err(e) => event == SshConfigImportEvent::Error(e),
        },
{
    match result {
        Ok(ids) => SshConfigImportEvent::ImportComplete(ids),
        Err(e) => SshConfigImportEvent::Error(e),
    }
}


proof fn lemma_count_update(sel: Seq<bool>, i: int, b: bool)
    requires
        0 <= i < sel.len(),
    ensures
        count_selected(sel.update(i, b)) + (if sel[i] {
            1int
        } else {
            0int
        }) == count_selected(sel) + (if b {
            1int
        } else {
            0int
        }),
    decreases sel.len(),
{
    if i < sel.len() - 1 {
        assert(sel.update(i, b).drop_last() == sel.drop_last().update(i, b));
        lemma_count_update(sel.drop_last(), i, b);
    } else {
        assert(sel.update(i, b).drop_last() == sel.drop_last());
    }
}

/// Ticking a host twice leaves the dialog as it was.
pub proof fn law_toggle_twice(v: DialogView, i: int)
    ensures
        toggle_spec(toggle_spec(v, i), i) == v,
{
    if 0 <= i < v.selected.len() {
        assert(v.selected.update(i, !v.selected[i]).update(i, v.selected[i]) == v.selected);
    }
}

/// Ticking a host changes the count of ticked hosts by exactly one.
pub proof fn law_toggle_count(v: DialogView, i: int)
    requires
        0 <= i < v.selected.len(),
    ensures
        count_selected(toggle_spec(v, i).selected) == if v.selected[i] {
            count_selected(v.selected) - 1
        } else {
            count_selected(v.selected) + 1int
        },
{
    lemma_count_update(v.selected, i, !v.selected[i]);
}

proof fn lemma_count_all(n: nat, b: bool)
    ensures
        count_selected(Seq::new(n, |i: int| b)) == if b {
            n
        } else {
            0
        },
    decreases n,
{
    if n > 0 {
        assert(Seq::new(n, |i: int| b).drop_last() == Seq::new((n - 1) as nat, |i: int| b));
        lemma_count_all((n - 1) as nat, b);
    }
}

/// After "select all" every host is ticked; after "deselect all" none is,
/// and an import then creates nothing. Neither changes the hosts.
pub proof fn law_select_all_counts(v: DialogView)
    ensures
        count_selected(select_all_spec(v, true).selected) == v.selected.len(),
        count_selected(select_all_spec(v, false).selected) == 0,
        selected_indices(select_all_spec(v, false).selected).len() == 0,
        select_all_spec(v, true).hosts == v.hosts,
        select_all_spec(v, false).hosts == v.hosts,
{
    lemma_count_all(v.selected.len(), true);
    lemma_count_all(v.selected.len(), false);
    law_import_matches_ticks(select_all_spec(v, false).selected);
}

/// A dialog opened on a config text lists the hosts that the parser reads
/// from it, all ticked.
pub proof fn law_opened_all_ticked(text: Seq<char>)
    ensures
        opened_spec(Ok(text)).hosts == parse_ssh_config_spec(text),
        count_selected(opened_spec(Ok(text)).selected) == parse_ssh_config_spec(text).len(),
{
    lemma_count_all(parse_ssh_config_spec(text).len(), true);
    if parse_ssh_config_spec(text).len() == 0 {
        assert(opened_spec(Ok(text)).hosts == parse_ssh_config_spec(text));
    }
}


/// An imported host reaches the `ssh` command as configured: a `Port` other
/// than 22 is passed with `-p`, as a numeral that reads back as the same
/// port, and no `-p` is passed without one; an `IdentityFile` that is not
/// empty is passed with `-i`.
pub proof fn law_import_reaches_command(h: SshConfigHostView, s: SshServerInfo)
    requires
        server_info_of(h, s),
    ensures
        h.port matches Some(p) ==> (p != 22 ==> ssh_args_spec(s)[1] == "-p"@ && ssh_args_spec(s)[2]
            == decimal(p as nat) && parse_u16(ssh_args_spec(s)[2]) == Some(p)),
        (h.port is None || h.port == Some(22u16)) ==> port_args(s).len() == 0,
        h.identity_file matches Some(f) ==> (f.len() > 0 ==> ssh_args_spec(s)[1int + port_args(
            s,
        ).len()] == "-i"@ && ssh_args_spec(s)[2int + port_args(s).len()] == f),
{
    law_ssh_args_shape(s);
    law_decimal_roundtrip(s.port as nat);
}


/// The dialog opens `Ready` exactly when the config text yields at least one
/// host and `Empty` exactly when it yields none, listing those hosts; on a
/// read error it opens in the error state with that message and no host.
pub proof fn law_opened_state(read: Result<Seq<char>, Seq<char>>)
    ensures
        match read {
            Ok(text) => {
                &&& (opened_spec(read).state is Ready) == (parse_ssh_config_spec(text).len() > 0)
                &&& (opened_spec(read).state is Empty) == (parse_ssh_config_spec(text).len() == 0)
                &&& opened_spec(read).hosts == parse_ssh_config_spec(text)
                &&& opened_spec(read).selected.len() == parse_ssh_config_spec(text).len()
            },
            Err(e) => {
                &&& opened_spec(read).state == ImportStateView::Error(e)
                &&& opened_spec(read).hosts.len() == 0
            },
        },
{
    match read {
        Ok(text) => {
            if parse_ssh_config_spec(text).len() == 0 {
                assert(opened_spec(read).hosts == parse_ssh_config_spec(text));
            }
        },
        Err(e) => {},
    }
}

/// A server record made from a config block keeps the block's options, and
/// each of them reaches the `ssh` arguments: a proxy jump, host key
/// algorithms or accepted key types that are not empty as `-o NAME=VALUE`,
/// each timeout or count as `-o NAME=N`, an identity file that is not empty
/// as `-i PATH`.
pub proof fn law_import_keeps_options(h: SshConfigHostView, s: SshServerInfo)
    requires
        server_info_of(h, s),
    ensures
        opt_str_view(s.proxy_jump) == h.proxy_jump,
        opt_str_view(s.host_key_algorithms) == h.host_key_algorithms,
        opt_str_view(s.pubkey_accepted_key_types) == h.pubkey_accepted_key_types,
        opt_str_view(s.key_path) == h.identity_file,
        s.connect_timeout_secs == h.connect_timeout_secs,
        s.keepalive_interval_secs == h.server_alive_interval_secs,
        s.keepalive_count_max == h.server_alive_count_max,
        h.proxy_jump matches Some(v) ==> (v.len() > 0 ==> has_pair(
            ssh_args_spec(s),
            "-o"@,
            "ProxyJump="@ + v,
        )),
        h.host_key_algorithms matches Some(v) ==> (v.len() > 0 ==> has_pair(
            ssh_args_spec(s),
            "-o"@,
            "HostKeyAlgorithms="@ + v,
        )),
        h.pubkey_accepted_key_types matches Some(v) ==> (v.len() > 0 ==> has_pair(
            ssh_args_spec(s),
            "-o"@,
            "PubkeyAcceptedKeyTypes="@ + v,
        )),
        h.identity_file matches Some(v) ==> (v.len() > 0 ==> has_pair(ssh_args_spec(s), "-i"@, v)),
        h.connect_timeout_secs matches Some(n) ==> has_pair(
            ssh_args_spec(s),
            "-o"@,
            "ConnectTimeout="@ + decimal(n as nat),
        ),
        h.server_alive_interval_secs matches Some(n) ==> has_pair(
            ssh_args_spec(s),
            "-o"@,
            "ServerAliveInterval="@ + decimal(n as nat),
        ),
        h.server_alive_count_max matches Some(n) ==> has_pair(
            ssh_args_spec(s),
            "-o"@,
            "ServerAliveCountMax="@ + decimal(n as nat),
        ),
{
    law_each_option_present(s);
}

/// A row shows the alias alone exactly when the host name equals it; any
/// other host name is shown after the alias in parentheses, and a missing
/// one as `?`.
pub proof fn law_host_label(h: SshConfigHostView)
    ensures
        h.host_name == Some(h.alias) ==> host_label_spec(h) == h.alias,
        h.host_name matches Some(n) ==> (n != h.alias ==> host_label_spec(h) == h.alias + "  ("@
            + n + ")"@),
        h.host_name is None ==> host_label_spec(h) == h.alias + "  ("@ + "?"@ + ")"@,
{
}

} // verus!
