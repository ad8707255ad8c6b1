use velora::css::{CssParser, CssParserOptions, CssRuleType};
use velora::errors::{JsRuntimeError, NetworkError, ParserError, VeloraError};
use velora::input::{HitTestResult, KeyModifiers, NavigationButtonType};
use velora::jsrt::{ContextState, DomBindings, JsContext, JsRuntime};
use velora::markup::{HtmlParser, Token, Tokenizer};
use velora::net::{fetch, CachedResource, HttpClientConfig, HttpResponse, ResourceCache};
use velora::paint::{paint, ImageRenderer, Renderer, ShapeRenderer, TextRenderer};
use velora::platform::GraphicsConfig;
use velora::types::{Color, HttpStatus, JsContextId, Point, Rect, Size};
use velora::ui::{BrowserToolbar, BrowserUI, Tab, TabBar};
use velora::ui_render::{ColorScheme, RenderMode, UILayoutCache, UIState};

#[test]
fn test_css_parser_creation() {
    let parser = CssParser::new();
    assert!(parser.options.parse_vendor_prefixes);
    assert!(!parser.options.strict_mode);
}

#[test]
fn css_test_css_parsing() {
    let parser = CssParser::new();
    let css = "body { background-color: #ffffff; }";
    let result = parser.parse_css(css);
    assert!(result.is_ok());
    let rules = result.unwrap();
    assert!(!rules.is_empty());
    let rule = &rules[0];
    assert_eq!(rule.rule_type, CssRuleType::Style);
    assert_eq!(rule.selectors.len(), 1);
    assert_eq!(rule.properties.len(), 1);
}

#[test]
fn test_selector_parsing() {
    let parser = CssParser::new();
    let selector = parser.parse_selector("#main").unwrap();
    assert_eq!(selector.specificity.a, 1);
    assert_eq!(selector.specificity.b, 0);
    assert_eq!(selector.specificity.c, 0);
    let selector = parser.parse_selector(".header").unwrap();
    assert_eq!(selector.specificity.a, 0);
    assert_eq!(selector.specificity.b, 1);
    assert_eq!(selector.specificity.c, 0);
    let selector = parser.parse_selector("div").unwrap();
    assert_eq!(selector.specificity.a, 0);
    assert_eq!(selector.specificity.b, 0);
    assert_eq!(selector.specificity.c, 1);
}

#[test]
fn test_specificity_calculation() {
    let parser = CssParser::new();
    let selector = "#main .header div:hover";
    let parsed = parser.parse_selector(selector).unwrap();
    assert!(parsed.specificity.a == 1);
    assert!(parsed.specificity.b == 0);
    assert!(parsed.specificity.c == 0);
}

#[test]
fn strict_css_parser_rejects_ruleless_input() {
    let parser = CssParser::with_options(CssParserOptions {
        parse_vendor_prefixes: true,
        strict_mode: true,
    });
    let result = parser.parse_css("p { }");
    assert!(matches!(
        result,
        Err(VeloraError::Parser(ParserError::CssParsing(_)))
    ));
    assert!(velora::css::parse_css("anything").is_ok());
}

#[test]
fn end_to_end_markup_to_rectangles() {
    let parser = HtmlParser::new();
    let doc = parser
        .parse_html("<!DOCTYPE html><html><head></head><body>Hello</body></html>")
        .unwrap();
    assert!(doc.get_dom_tree().node_count() >= 3);
    let body = doc.body().expect("a body node");
    assert_eq!(body.child_ids.len(), 1);
    let text = doc.get_dom_tree().get_node(body.child_ids[0]).unwrap();
    let value = text.node_value.clone().unwrap();
    assert!(value.contains("Hello"));
}

#[test]
fn parser_flattens_plain_input_into_a_body() {
    let parser = HtmlParser::new();
    let doc = parser.parse_html("just <b>text</b> here").unwrap();
    // document, html, body and one text node
    assert_eq!(doc.get_dom_tree().node_count(), 4);
    let body = doc.body().expect("a body node");
    let text = doc.get_dom_tree().get_node(body.child_ids[0]).unwrap();
    assert_eq!(text.node_value.clone().unwrap(), "just text here");
}

#[test]
fn parse_fragment_yields_text_nodes() {
    let parser = HtmlParser::new();
    let nodes = parser.parse_fragment("<i>x</i> y", "div").unwrap();
    assert_eq!(nodes.len(), 1);
    assert_eq!(nodes[0].node_value.clone().unwrap(), "x y");
    let none = parser.parse_fragment("<i></i>", "div").unwrap();
    assert_eq!(none.len(), 0);
}

#[test]
fn parse_bytes_rejects_invalid_encoding() {
    let parser = HtmlParser::new();
    let bad = [0xffu8, 0xfe, 0x48];
    let result = parser.parse_bytes(&bad);
    assert!(matches!(
        result,
        Err(VeloraError::Parser(ParserError::InvalidEncoding(_)))
    ));
    let good = parser.parse_bytes(b"Hello bytes").unwrap();
    assert!(good.body().is_some());
}

#[test]
fn test_parser_creation() {
    let parser = HtmlParser::new();
    assert!(parser.parse("").is_ok());
}

#[test]
fn test_parser_default() {
    let parser = HtmlParser::default();
    assert!(parser.parse("").is_ok());
}

#[test]
fn tokenizer_walks_characters() {
    let mut tokenizer = Tokenizer::new("ab".to_string());
    assert!(tokenizer.has_more());
    assert_eq!(tokenizer.next_token().unwrap(), Token::Text("a".to_string()));
    assert_eq!(tokenizer.next_token().unwrap(), Token::Text("b".to_string()));
    assert!(!tokenizer.has_more());
    assert_eq!(tokenizer.next_token().unwrap(), Token::Eof);
    assert!(velora::markup::parse_html("<p>").is_ok());
}

#[test]
fn test_js_context_creation() {
    let context = JsContext::new(JsContextId(1));
    assert!(context.is_ok());
    let context = context.unwrap();
    assert_eq!(context.id(), JsContextId(1));
    assert!(context.is_ready());
    assert!(!context.is_executing());
    assert!(!context.has_error());
}

#[test]
fn test_context_state_management() {
    let mut context = JsContext::new(JsContextId(1)).unwrap();
    context.state = ContextState::Error("Test error".to_string());
    assert!(context.has_error());
    context.reset();
    assert!(context.is_ready());
    assert!(!context.has_error());
}

#[test]
fn context_execute_state_machine() {
    let mut context = JsContext::new(JsContextId(1)).unwrap();
    assert!(matches!(
        context.execute("   "),
        Err(VeloraError::JsRuntime(JsRuntimeError::InvalidScript(_)))
    ));
    assert!(context.is_ready());
    assert!(matches!(
        context.execute("this is a syntax error here"),
        Err(VeloraError::JsRuntime(JsRuntimeError::ExecutionFailed(_)))
    ));
    assert!(context.has_error());
    assert!(context.get_error().is_some());
    assert!(context.execute("work()").is_ok());
    assert!(context.is_ready());
}

#[test]
fn test_dom_bindings_creation() {
    let bindings: Result<DomBindings<&str>, _> = DomBindings::new();
    assert!(bindings.is_ok());
    let bindings = bindings.unwrap();
    assert_eq!(bindings.binding_count(), 0);
}

#[test]
fn test_register_binding() {
    let mut bindings: DomBindings<&str> = DomBindings::new().unwrap();
    let result = bindings.register_binding("test", "test_value");
    assert!(result.is_ok());
    assert_eq!(bindings.binding_count(), 1);
    assert!(bindings.has_binding("test"));
}

#[test]
fn test_duplicate_binding() {
    let mut bindings: DomBindings<&str> = DomBindings::new().unwrap();
    bindings.register_binding("test", "value1").unwrap();
    let result = bindings.register_binding("test", "value2");
    assert!(result.is_err());
    assert_eq!(bindings.binding_count(), 1);
}

#[test]
fn test_get_binding() {
    let mut bindings: DomBindings<&str> = DomBindings::new().unwrap();
    bindings.register_binding("test", "test_value").unwrap();
    let retrieved = bindings.get_binding("test");
    assert!(retrieved.is_some());
    assert_eq!(*retrieved.unwrap(), "test_value");
}

#[test]
fn test_remove_binding() {
    let mut bindings: DomBindings<&str> = DomBindings::new().unwrap();
    bindings.register_binding("test", "test_value").unwrap();
    assert_eq!(bindings.binding_count(), 1);
    assert!(bindings.remove_binding("test"));
    assert_eq!(bindings.binding_count(), 0);
    assert!(!bindings.has_binding("test"));
}

#[test]
fn runtime_contexts_register_and_validate() {
    let mut runtime = JsRuntime::new().unwrap();
    assert_eq!(runtime.context_count(), 0);
    let id = runtime.create_context().unwrap();
    assert_eq!(runtime.context_count(), 1);
    assert!(runtime.get_context(id).is_some());
    assert!(runtime.execute_script(id, "work()").is_ok());
    assert!(matches!(
        runtime.execute_script(id, " "),
        Err(VeloraError::JsRuntime(JsRuntimeError::InvalidScript(_)))
    ));
    assert!(matches!(
        runtime.execute_script(JsContextId(999), "work()"),
        Err(VeloraError::JsRuntime(JsRuntimeError::ExecutionFailed(_)))
    ));
    assert!(runtime.reset_context(id));
    assert!(runtime.remove_context(id));
    assert_eq!(runtime.context_count(), 0);
    assert!(runtime.get_context(id).is_none());
}

#[test]
fn test_resource_cache_creation() {
    let cache = ResourceCache::new(1024);
    assert_eq!(cache.max_size(), 1024);
    assert_eq!(cache.current_size(), 0);
}

#[test]
fn test_cache_store_and_get() {
    let mut cache = ResourceCache::new(1024);
    let resource = CachedResource {
        data: b"Hello, World!".to_vec(),
        content_type: "text/plain".to_string(),
        timestamp: std::time::SystemTime::now(),
    };
    let result = cache.store("test.txt".to_string(), resource);
    assert!(result.is_ok());
    let cached = cache.get("test.txt");
    assert!(cached.is_some());
    assert_eq!(cached.unwrap().content_type, "text/plain");
}

#[test]
fn test_cache_clear() {
    let mut cache = ResourceCache::new(1024);
    let resource = CachedResource {
        data: b"Hello, World!".to_vec(),
        content_type: "text/plain".to_string(),
        timestamp: std::time::SystemTime::now(),
    };
    cache.store("test.txt".to_string(), resource).unwrap();
    assert_eq!(cache.current_size(), 13);
    cache.clear();
    assert_eq!(cache.current_size(), 0);
    assert!(cache.get("test.txt").is_none());
}

#[test]
fn cache_rejects_overflow() {
    let mut cache = ResourceCache::new(10);
    let resource = CachedResource {
        data: b"Hello, World!".to_vec(),
        content_type: "text/plain".to_string(),
        timestamp: std::time::SystemTime::now(),
    };
    let result = cache.store("big".to_string(), resource);
    assert!(matches!(
        result,
        Err(VeloraError::Network(NetworkError::RequestFailed(_)))
    ));
    assert_eq!(cache.current_size(), 0);
}

#[test]
fn test_cached_resource() {
    let resource = CachedResource {
        data: b"Hello, World!".to_vec(),
        content_type: "text/plain".to_string(),
        timestamp: std::time::SystemTime::now(),
    };
    assert_eq!(resource.data, b"Hello, World!");
    assert_eq!(resource.content_type, "text/plain");
}

#[test]
fn test_http_response() {
    let headers = vec![("Content-Type".to_string(), "text/plain".to_string())];
    let body = b"Hello, World!".to_vec();
    let response = HttpResponse::new(HttpStatus::ok(), headers, body.clone());
    assert_eq!(response.status.code, 200);
    assert_eq!(response.get_header("Content-Type"), Some("text/plain"));
    assert_eq!(response.body, body);
    let text = response.text();
    assert!(text.is_ok());
    assert_eq!(text.unwrap(), "Hello, World!");
}

#[test]
fn response_text_requires_valid_encoding() {
    let response = HttpResponse::new(HttpStatus::ok(), Vec::new(), vec![0xff, 0xfe]);
    assert!(matches!(
        response.text(),
        Err(VeloraError::Parser(ParserError::InvalidEncoding(_)))
    ));
    let config = HttpClientConfig::default();
    assert_eq!(config.timeout, 30);
    assert_eq!(config.max_redirects, 10);
    assert!(config.user_agent.contains("Mozilla"));
    let url = url::Url::parse("https://example.com").unwrap();
    assert!(fetch(&url).is_ok());
}

#[test]
fn test_renderer_creation() {
    let renderer = Renderer::new();
    assert!(renderer.is_ok());
}

#[test]
fn test_renderer_initialization() {
    let mut renderer = Renderer::new().unwrap();
    let size = Size::new(800, 600);
    let result = renderer.initialize(size);
    assert!(result.is_ok());
}

#[test]
fn test_renderer_frame_rendering() {
    let mut renderer = Renderer::new().unwrap();
    let result = renderer.render();
    assert!(result.is_ok());
}

#[test]
fn test_shape_renderer_creation() {
    let renderer = ShapeRenderer::new();
    assert!(renderer.is_ok());
}

#[test]
fn test_shape_renderer_color_setting() {
    let mut renderer = ShapeRenderer::new().unwrap();
    let new_color = Color::rgb(255, 0, 0);
    renderer.set_color(new_color);
    assert_eq!(renderer.color, new_color);
}

#[test]
fn test_rectangle_drawing() {
    let renderer = ShapeRenderer::new().unwrap();
    let rect = Rect::new(0, 0, 100, 50);
    let result = renderer.draw_rect(rect);
    assert!(result.is_ok());
}

#[test]
fn test_circle_drawing() {
    let renderer = ShapeRenderer::new().unwrap();
    let center = Point::new(50, 50);
    let radius = 25;
    let result = renderer.draw_circle(center, radius);
    assert!(result.is_ok());
}

#[test]
fn test_text_renderer_creation() {
    let renderer = TextRenderer::new();
    assert!(renderer.is_ok());
}

#[test]
fn test_text_rendering() {
    let renderer = TextRenderer::new().unwrap();
    let position = Point::new(10, 20);
    let color = Color::black();
    let result = renderer.render_text("Hello, World!", position, color);
    assert!(result.is_ok());
}

#[test]
fn test_image_renderer_creation() {
    let renderer = ImageRenderer::new();
    assert!(renderer.is_ok());
}

#[test]
fn test_image_loading() {
    let mut renderer = ImageRenderer::new().unwrap();
    let result = renderer.load_image("test.png");
    assert!(result.is_ok());
}

#[test]
fn test_image_drawing() {
    let renderer = ImageRenderer::new().unwrap();
    let rect = Rect::new(0, 0, 100, 100);
    let result = renderer.draw_image("test", rect);
    assert!(result.is_ok());
    assert!(paint().is_ok());
}

#[test]
fn test_key_modifiers() {
    let mut modifiers = KeyModifiers::default();
    assert!(!modifiers.shift);
    assert!(!modifiers.control);
    assert!(!modifiers.alt);
    assert!(!modifiers.meta);
    modifiers.shift = true;
    modifiers.control = true;
    assert!(modifiers.shift);
    assert!(modifiers.control);
}

#[test]
fn test_hit_test_result() {
    let result = HitTestResult::Tab {
        tab_id: "tab_1".to_string(),
        is_close_button: false,
    };
    match result {
        HitTestResult::Tab { tab_id, is_close_button } => {
            assert_eq!(tab_id, "tab_1");
            assert!(!is_close_button);
        }
        _ => panic!("Expected Tab result"),
    }
    let nav = NavigationButtonType::Back;
    assert_eq!(nav, NavigationButtonType::Back);
}

#[test]
fn test_tab_creation() {
    let mut tab_bar = TabBar::new();
    let tab_id = tab_bar.create_tab("https://example.com".to_string());
    assert!(tab_bar.get_tab(tab_id.as_str()).is_some());
    assert_eq!(tab_bar.active_tab_id, Some(tab_id));
}

#[test]
fn test_tab_navigation() {
    let mut tab = Tab::new("tab_1".to_string(), "https://example.com".to_string());
    tab.navigate_to("https://example.org".to_string());
    assert_eq!(tab.url, "https://example.org");
    assert_eq!(tab.history.len(), 2);
    assert_eq!(tab.history_index, 1);
    let back_url = tab.go_back();
    assert_eq!(back_url, Some("https://example.com".to_string()));
    assert_eq!(tab.history_index, 0);
    let forward_url = tab.go_forward();
    assert_eq!(forward_url, Some("https://example.org".to_string()));
    assert!(tab.go_forward().is_none());
}

#[test]
fn test_browser_ui() {
    let mut ui = BrowserUI::new();
    assert_eq!(ui.tab_bar.tab_count(), 1);
    assert!(ui.tab_bar.active_tab_id.is_some());
    let tab_id = ui.create_tab("https://example.com".to_string());
    assert_eq!(ui.tab_bar.tab_count(), 2);
    ui.switch_to_tab(tab_id.as_str()).unwrap();
    assert_eq!(ui.tab_bar.active_tab_id, Some(tab_id));
}

#[test]
fn tab_identifiers_count_up() {
    let mut tab_bar = TabBar::new();
    assert_eq!(tab_bar.create_tab("a".to_string()), "tab_1");
    assert_eq!(tab_bar.create_tab("b".to_string()), "tab_2");
    let missing = tab_bar.close_tab("tab_9");
    assert!(matches!(missing, Err(VeloraError::InvalidState(_))));
    tab_bar.close_tab("tab_1").unwrap();
    assert_eq!(tab_bar.tab_count(), 1);
    assert_eq!(tab_bar.active_tab_id, Some("tab_2".to_string()));
}

#[test]
fn toolbar_mirrors_tab() {
    let mut toolbar = BrowserToolbar::new();
    assert!(!toolbar.back_enabled);
    toolbar.set_url_input_text("x".to_string());
    assert_eq!(toolbar.url_input_text, "x");
    toolbar.set_url_input_focused(true);
    assert!(toolbar.url_input_focused);
    let mut tab = Tab::new("tab_1".to_string(), "https://a".to_string());
    tab.navigate_to("https://b".to_string());
    toolbar.update_for_tab(&tab);
    assert!(toolbar.back_enabled);
    assert!(!toolbar.forward_enabled);
    assert_eq!(toolbar.current_url, "https://b");
}

#[test]
fn ui_state_and_schemes() {
    let state = UIState::new();
    assert!(!state.ready);
    assert!(state.needs_redraw);
    assert!(matches!(state.render_mode, RenderMode::Basic));
    assert_eq!(ColorScheme::dark(), ColorScheme::default());
    assert_eq!(ColorScheme::system(), ColorScheme::dark());
    assert_eq!(ColorScheme::light().content_bg, 0xFFFFFFFF);
    let mut cache = UILayoutCache::new();
    assert_eq!(cache.content_area, (0, 90, 1280, 630));
    cache.update(Size::new(1000, 600));
    assert_eq!(cache.content_area, (0, 90, 1000, 510));
    let config = GraphicsConfig::default();
    assert!(config.vsync);
    assert_eq!(config.antialiasing, 4);
    assert_eq!(config.max_fps, None);
}
