//! Browser shell state: tabs with navigation history, the tab bar, the
//! toolbar and the shell layout.

use vstd::prelude::*;

use crate::errors::{VeloraError, VeloraResult};
use crate::strings::{dec_chars, str_eq, u64_to_string};
use crate::types::Size;

verus! {

/// One tab: its address and its navigation history.
pub struct Tab {
    /// Unique identifier of the tab.
    pub id: String,
    /// Tab title.
    pub title: String,
    /// Current address.
    pub url: String,
    /// Whether the tab is loading.
    pub loading: bool,
    /// Whether the history allows going back.
    pub can_go_back: bool,
    /// Whether the history allows going forward.
    pub can_go_forward: bool,
    /// Visited addresses, oldest first.
    pub history: Vec<String>,
    /// Current position in the history.
    pub history_index: usize,
}

impl Tab {
    /// The tab's own invariant: the index points into the history, the
    /// current address is the history entry there, and the two direction
    /// flags mirror the index.
    pub open spec fn wf(self) -> bool {
        &&& self.history@.len() >= 1
    &&& self.history_index < self.history@.len()
        &&& self.url@ == self.history@[self.history_index as int]@
        &&& self.can_go_back == (self.history_index > 0)
        &&& self.can_go_forward == (self.history_index + 1 < self.history@.len())
    }

    /// Opens a tab at `url` with a single-entry history.
    pub fn new(id: String, url: String) -> (r: Tab)
        ensures
            r.wf(),
            r.id@ == id@,
            r.title@ == "New Tab"@,
            r.url@ == url@,
            !r.loading,
            !r.can_go_back,
            !r.can_go_forward,
            r.history@.len() == 1,
            r.history@[0]@ == url@,
            r.history_index == 0,
    {
        let mut history: Vec<String> = Vec::new();
        history.push(url.clone());
        Tab {
            id,
            title: "New Tab".to_owned(),
            url,
            loading: false,
            can_go_back: false,
            can_go_forward: false,
            history,
            history_index: 0,
        }
    }

    /// Navigates to `url`: truncates the forward history, appends the new
    /// address and moves there; a navigation to the current address is a
    /// no-op.
    pub fn navigate_to(&mut self, url: String)
        requires
            old(self).wf(),
            old(self).history@.len() < usize::MAX,
        ensures
            final(self).wf(),
            final(self).id@ == old(self).id@,
            url@ == old(self).url@ ==> *final(self) == *old(self),
            url@ != old(self).url@ ==> {
                &&& final(self).url@ == url@
                &&& final(self).loading
                &&& final(self).history@.len() == old(self).history_index + 2
                &&& final(self).history_index == old(self).history_index + 1
                &&& final(self).can_go_back
                &&& !final(self).can_go_forward
            },
    {
        if !str_eq(self.url.as_str(), url.as_str()) {
            self.history.truncate(self.history_index + 1);
            self.history.push(url.clone());
            self.history_index = self.history.len() - 1;
            self.url = url;
            self.loading = true;
            self.update_navigation_state();
        }
    }

    /// Steps back in the history; returns the address arrived at, or nothing
    /// when the history allows no step back.
    pub fn go_back(&mut self) -> (r: Option<String>)
        requires
            old(self).wf(),
        ensures
            final(self).wf(),
            final(self).id@ == old(self).id@,
            !old(self).can_go_back ==> r is None && *final(self) == *old(self),
            old(self).can_go_back ==> {
                &&& final(self).history_index == old(self).history_index - 1
                &&& r is Some
                &&& r->0@ == old(self).history@[old(self).history_index - 1]@
                &&& final(self).url@ == r->0@
                &&& final(self).history@ == old(self).history@
            },
    {
        if self.can_go_back {
            self.history_index = self.history_index - 1;
            let url = self.history[self.history_index].clone();
            self.url = url.clone();
            self.update_navigation_state();
            Some(url)
        } else {
            None
        }
    }

    /// Steps forward in the history; returns the address arrived at, or
    /// nothing when the history allows no step forward.
    pub fn go_forward(&mut self) -> (r: Option<String>)
        requires
            old(self).wf(),
        ensures
            final(self).wf(),
            final(self).id@ == old(self).id@,
            !old(self).can_go_forward ==> r is None && *final(self) == *old(self),
            old(self).can_go_forward ==> {
                &&& final(self).history_index == old(self).history_index + 1
                &&& r is Some
                &&& r->0@ == old(self).history@[old(self).history_index + 1]@
                &&& final(self).url@ == r->0@
                &&& final(self).history@ == old(self).history@
            },
    {
        if self.can_go_forward {
            let len = self.history.len();
            self.history_index = self.history_index + 1;
            let url = self.history[self.history_index].clone();
            self.url = url.clone();
            self.update_navigation_state();
            Some(url)
        } else {
            None
        }
    }

    /// Recomputes the two direction flags from the index.
    fn update_navigation_state(&mut self)
        requires
            old(self).history@.len() >= 1,
            old(self).history_index < old(self).history@.len(),
        ensures
            *final(self) == (Tab {
                can_go_back: old(self).history_index > 0,
                can_go_forward: old(self).history_index + 1 < old(self).history@.len(),
                ..*old(self)
            }),
    {
        let len = self.history.len();
        self.can_go_back = self.history_index > 0;
        self.can_go_forward = self.history_index + 1 < len;
    }

    /// Sets the loading flag.
    pub fn set_loading(&mut self, loading: bool)
        ensures
            *final(self) == (Tab { loading, ..*old(self) }),
    {
        self.loading = loading;
    }

    /// Sets the title.
    pub fn set_title(&mut self, title: String)
        ensures
            *final(self) == (Tab { title, ..*old(self) }),
    {
        self.title = title;
    }
}

/// The toolbar: navigation button states and the address input.
pub struct BrowserToolbar {
    /// Whether going back is offered.
    pub back_enabled: bool,
    /// Whether going forward is offered.
    pub forward_enabled: bool,
    /// Whether refreshing is offered.
    pub refresh_enabled: bool,
    /// The address on display.
    pub current_url: String,
    /// The text in the address input.
    pub url_input_text: String,
    /// Whether the address input has focus.
    pub url_input_focused: bool,
}

impl BrowserToolbar {
    /// A toolbar for a fresh shell: only refresh offered, inputs empty.
    pub fn new() -> (r: BrowserToolbar)
        ensures
            !r.back_enabled,
            !r.forward_enabled,
            r.refresh_enabled,
            r.current_url@ == Seq::<char>::empty(),
            r.url_input_text@ == Seq::<char>::empty(),
            !r.url_input_focused,
    {
        BrowserToolbar {
            back_enabled: false,
            forward_enabled: false,
            refresh_enabled: true,
            current_url: String::new(),
            url_input_text: String::new(),
            url_input_focused: false,
        }
    }

    /// Mirrors a tab's state onto the toolbar.
    pub fn update_for_tab(&mut self, tab: &Tab)
        ensures
            final(self).back_enabled == tab.can_go_back,
            final(self).forward_enabled == tab.can_go_forward,
            final(self).refresh_enabled,
            final(self).current_url@ == tab.url@,
            final(self).url_input_text@ == tab.url@,
            final(self).url_input_focused == old(self).url_input_focused,
    {
        self.back_enabled = tab.can_go_back;
        self.forward_enabled = tab.can_go_forward;
        self.refresh_enabled = true;
        self.current_url = tab.url.clone();
        self.url_input_text = tab.url.clone();
    }

    /// Replaces the address-input text.
    pub fn set_url_input_text(&mut self, text: String)
        ensures
            *final(self) == (BrowserToolbar { url_input_text: text, ..*old(self) }),
    {
        self.url_input_text = text;
    }

    /// Focuses or unfocuses the address input.
    pub fn set_url_input_focused(&mut self, focused: bool)
        ensures
            *final(self) == (BrowserToolbar { url_input_focused: focused, ..*old(self) }),
    {
        self.url_input_focused = focused;
    }
}

/// The tab bar: the open tabs and the active one.
pub struct TabBar {
    /// Open tabs, oldest first.
    pub tabs: Vec<Tab>,
    /// Identifier of the active tab.
    pub active_tab_id: Option<String>,
    /// Next tab number to hand out.
    pub next_tab_id: u32,
}

/// Whether some tab in `tabs` carries identifier `id`.
pub open spec fn has_tab(tabs: Seq<Tab>, id: Seq<char>) -> bool {
    exists|i: int| 0 <= i < tabs.len() && tabs[i].id@ == id
}

impl TabBar {
    /// The bar's own invariant: every tab is well formed.
    pub open spec fn wf(self) -> bool {
        forall|i: int| 0 <= i < self.tabs@.len() ==> (#[trigger] self.tabs@[i]).wf()
    }

    /// An empty tab bar.
    pub fn new() -> (r: TabBar)
        ensures
            r.wf(),
            r.tabs@.len() == 0,
            r.active_tab_id is None,
            r.next_tab_id == 1,
    {
        TabBar { tabs: Vec::new(), active_tab_id: None, next_tab_id: 1 }
    }

    /// Opens a tab at `url` under a fresh `tab_`-prefixed identifier; the
    /// first tab becomes active.
    pub fn create_tab(&mut self, url: String) -> (r: String)
        requires
            old(self).wf(),
            old(self).next_tab_id < u32::MAX,
        ensures
            final(self).wf(),
            r@ == "tab_"@ + dec_chars(old(self).next_tab_id as int),
            final(self).tabs@.len() == old(self).tabs@.len() + 1,
            final(self).tabs@.last().id@ == r@,
            final(self).tabs@.last().url@ == url@,
            final(self).next_tab_id == old(self).next_tab_id + 1,
            old(self).active_tab_id is Some ==> final(self).active_tab_id == old(
                self,
            ).active_tab_id,
            old(self).active_tab_id is None ==> final(self).active_tab_id is Some && (final(
                self).active_tab_id->0)@ == r@,
    {
        let mut tab_id = "tab_".to_owned();
        tab_id.append(u64_to_string(self.next_tab_id as u64).as_str());
        self.next_tab_id = self.next_tab_id + 1;
        let tab = Tab::new(tab_id.clone(), url);
        self.tabs.push(tab);
        if self.active_tab_id.is_none() {
            self.active_tab_id = Some(tab_id.clone());
        }
        tab_id
    }

    /// Closes the tab under `tab_id`; when it was active, the first remaining
    /// tab (if any) becomes active. Rejected when no tab carries the
    /// identifier.
    pub fn close_tab(&mut self, tab_id: &str) -> (r: VeloraResult<()>)
        requires
            old(self).wf(),
        ensures
            final(self).wf(),
            r is Ok <==> has_tab(old(self).tabs@, tab_id@),
            r is Ok ==> final(self).tabs@.len() == old(self).tabs@.len() - 1,
            !(r is Ok) ==> *final(self) == *old(self) && (r matches Err(
                VeloraError::InvalidState(_),
            )),
    {
        let found = find_tab_index(&self.tabs, tab_id);
        match found {
            Some(k) => {
                self.tabs.remove(k);
                let was_active = match &self.active_tab_id {
                    Some(active) => str_eq(active.as_str(), tab_id),
                    None => false,
                };
                if was_active {
                    if self.tabs.len() > 0 {
                        self.active_tab_id = Some(self.tabs[0].id.clone());
                    } else {
                        self.active_tab_id = None;
                    }
                }
                Ok(())
            },
            None => Err(VeloraError::InvalidState("tab not found".to_owned())),
        }
    }

    /// Makes the tab under `tab_id` active; rejected when no tab carries the
    /// identifier.
    pub fn switch_to_tab(&mut self, tab_id: &str) -> (r: VeloraResult<()>)
        requires
            old(self).wf(),
        ensures
            final(self).wf(),
            r is Ok <==> has_tab(old(self).tabs@, tab_id@),
            r is Ok ==> final(self).tabs@ == old(self).tabs@ && final(self).active_tab_id is Some
                && (final(self).active_tab_id->0)@ == tab_id@,
            !(r is Ok) ==> *final(self) == *old(self) && (r matches Err(
                VeloraError::InvalidState(_),
            )),
    {
        if self.has_tab_with_id(tab_id) {
            self.active_tab_id = Some(tab_id.to_owned());
            Ok(())
        } else {
            Err(VeloraError::InvalidState("tab not found".to_owned()))
        }
    }

    /// Whether some tab carries `tab_id`.
    pub fn has_tab_with_id(&self, tab_id: &str) -> (r: bool)
        ensures
            r == has_tab(self.tabs@, tab_id@),
    {
        let n = self.tabs.len();
        let mut i: usize = 0;
        while i < n
            invariant
                n == self.tabs@.len(),
                i <= n,
                forall|j: int| 0 <= j < i ==> (#[trigger] self.tabs@[j]).id@ != tab_id@,
            decreases n - i,
        {
            if str_eq(self.tabs[i].id.as_str(), tab_id) {
                proof {
                    assert(self.tabs@[i as int].id@ == tab_id@);
                }
                return true;
            }
            i = i + 1;
        }
        false
    }

    /// The active tab, if one is set and present.
    pub fn get_active_tab(&self) -> (r: Option<&Tab>)
        ensures
            r is Some ==> self.active_tab_id is Some && r->0.id@ == (self.active_tab_id->0)@,
    {
        match &self.active_tab_id {
            Some(active) => self.get_tab(active.as_str()),
            None => None,
        }
    }

    /// The tab under `tab_id`, if any.
    pub fn get_tab(&self, tab_id: &str) -> (r: Option<&Tab>)
        ensures
            match r {
                Some(t) => t.id@ == tab_id@ && has_tab(self.tabs@, tab_id@),
                None => !has_tab(self.tabs@, tab_id@),
            },
    {
        let n = self.tabs.len();
        let mut i: usize = 0;
        while i < n
            invariant
                n == self.tabs@.len(),
                i <= n,
                forall|j: int| 0 <= j < i ==> (#[trigger] self.tabs@[j]).id@ != tab_id@,
            decreases n - i,
        {
            if str_eq(self.tabs[i].id.as_str(), tab_id) {
                proof {
                    assert(self.tabs@[i as int].id@ == tab_id@);
                }
                return Some(&self.tabs[i]);
            }
            i = i + 1;
        }
        None
    }

    /// Number of open tabs.
    pub fn tab_count(&self) -> (r: usize)
        ensures
            r == self.tabs@.len(),
    {
        self.tabs.len()
    }
}

/// Shell layout: window size, bar heights and the content area.
pub struct UILayout {
    /// Window size.
    pub window_size: Size,
    /// Tab bar height.
    pub tab_bar_height: i64,
    /// Toolbar height.
    pub toolbar_height: i64,
    /// Content area.
    pub content_area: ContentArea,
}

impl Default for UILayout {
    /// The default shell layout: a 1280 by 720 window with 40 and 50 unit
    /// bars.
    fn default() -> (r: UILayout)
        ensures
            r.window_size == (Size { width: 1280, height: 720 }),
            r.tab_bar_height == 40,
            r.toolbar_height == 50,
    {
        UILayout {
            window_size: Size::new(1280, 720),
            tab_bar_height: 40,
            toolbar_height: 50,
            content_area: ContentArea::default(),
        }
    }
}

impl UILayout {
    /// Recomputes the layout for a window size.
    pub fn update(&mut self, window_size: Size)
        requires
            crate::types::size_ok(window_size),
            0 <= old(self).tab_bar_height <= crate::types::MAX_COORD,
            0 <= old(self).toolbar_height <= crate::types::MAX_COORD,
        ensures
            final(self).window_size == window_size,
            final(self).tab_bar_height == old(self).tab_bar_height,
            final(self).toolbar_height == old(self).toolbar_height,
            final(self).content_area.rect.0 == old(self).tab_bar_height + old(
                self).toolbar_height,
            final(self).content_area.rect.1 == window_size.width,
            final(self).content_area.rect.2 == window_size.height - (old(self).tab_bar_height
                + old(self).toolbar_height),
    {
        self.window_size = window_size;
        self.content_area.update(window_size, self.tab_bar_height, self.toolbar_height);
    }
}

/// The content area below the bars: its top offset, width and height.
pub struct ContentArea {
    /// Top offset, width and height of the content area.
    pub rect: (i64, i64, i64),
}

impl Default for ContentArea {
    /// The content area of the default shell layout.
    fn default() -> (r: ContentArea)
        ensures
            r.rect.0 == 90 && r.rect.1 == 1280 && r.rect.2 == 630,
    {
        ContentArea { rect: (90, 1280, 630) }
    }
}

impl ContentArea {
    /// Recomputes the area below bars of the given heights.
    pub fn update(&mut self, window_size: Size, tab_bar_height: i64, toolbar_height: i64)
        requires
            crate::types::size_ok(window_size),
            0 <= tab_bar_height <= crate::types::MAX_COORD,
            0 <= toolbar_height <= crate::types::MAX_COORD,
        ensures
            final(self).rect.0 == tab_bar_height + toolbar_height,
            final(self).rect.1 == window_size.width,
            final(self).rect.2 == window_size.height - (tab_bar_height + toolbar_height),
    {
        let y = tab_bar_height + toolbar_height;
        self.rect = (y, window_size.width, window_size.height - y);
    }
}

/// The browser shell: tab bar, toolbar and layout.
pub struct BrowserUI {
    /// The tab bar.
    pub tab_bar: TabBar,
    /// The toolbar.
    pub toolbar: BrowserToolbar,
    /// The shell layout.
    pub layout: UILayout,
}

impl BrowserUI {
    /// The shell's own invariant.
    pub open spec fn wf(self) -> bool {
        self.tab_bar.wf()
    }

    /// A fresh shell with one blank tab.
    pub fn new() -> (r: BrowserUI)
        ensures
            r.wf(),
            r.tab_bar.tabs@.len() == 1,
            r.tab_bar.active_tab_id is Some,
    {
        let mut ui = BrowserUI {
            tab_bar: TabBar::new(),
            toolbar: BrowserToolbar::new(),
            layout: UILayout::default(),
        };
        let _ = ui.tab_bar.create_tab("about:blank".to_owned());
        ui
    }

    /// Opens a tab at `url` and returns its identifier.
    pub fn create_tab(&mut self, url: String) -> (r: String)
        requires
            old(self).wf(),
            old(self).tab_bar.next_tab_id < u32::MAX,
        ensures
            final(self).wf(),
            final(self).tab_bar.tabs@.len() == old(self).tab_bar.tabs@.len() + 1,
    {
        self.tab_bar.create_tab(url)
    }

    /// Closes the active tab, if one is set.
    pub fn close_current_tab(&mut self) -> (r: VeloraResult<()>)
        requires
            old(self).wf(),
        ensures
            final(self).wf(),
    {
        let active = match &self.tab_bar.active_tab_id {
            Some(active) => active.clone(),
            None => {
                return Ok(());
            },
        };
        self.tab_bar.close_tab(active.as_str())
    }

    /// Makes the tab under `tab_id` active and mirrors it onto the toolbar.
    pub fn switch_to_tab(&mut self, tab_id: &str) -> (r: VeloraResult<()>)
        requires
            old(self).wf(),
        ensures
            final(self).wf(),
            r is Ok <==> has_tab(old(self).tab_bar.tabs@, tab_id@),
    {
        let result = self.tab_bar.switch_to_tab(tab_id);
        if result.is_ok() {
            match self.tab_bar.get_active_tab() {
                Some(tab) => {
                    let back = tab.can_go_back;
                    let forward = tab.can_go_forward;
                    let url = tab.url.clone();
                    self.toolbar.back_enabled = back;
                    self.toolbar.forward_enabled = forward;
                    self.toolbar.refresh_enabled = true;
                    self.toolbar.current_url = url.clone();
                    self.toolbar.url_input_text = url;
                },
                None => {},
            }
        }
        result
    }

    /// Recomputes the shell layout for a window size.
    pub fn update_layout(&mut self, window_size: Size)
        requires
            crate::types::size_ok(window_size),
            0 <= old(self).layout.tab_bar_height <= crate::types::MAX_COORD,
            0 <= old(self).layout.toolbar_height <= crate::types::MAX_COORD,
        ensures
            final(self).layout.window_size == window_size,
            final(self).tab_bar == old(self).tab_bar,
            old(self).wf() ==> final(self).wf(),
    {
        self.layout.update(window_size);
    }
}

/// Position of the first tab carrying `tab_id`.
fn find_tab_index(tabs: &Vec<Tab>, tab_id: &str) -> (r: Option<usize>)
    ensures
        match r {
            Some(i) => i < tabs@.len() && tabs@[i as int].id@ == tab_id@,
            None => !has_tab(tabs@, tab_id@),
        },
{
    let n = tabs.len();
    let mut i: usize = 0;
    while i < n
        invariant
            n == tabs@.len(),
            i <= n,
            forall|j: int| 0 <= j < i ==> (#[trigger] tabs@[j]).id@ != tab_id@,
        decreases n - i,
    {
        if str_eq(tabs[i].id.as_str(), tab_id) {
            proof {
                assert(tabs@[i as int].id@ == tab_id@);
            }
            return Some(i);
        }
        i = i + 1;
    }
    None
}

} // verus!
