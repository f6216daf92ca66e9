use std::collections::HashMap;

use groon::cache::{HTMLFile, PageCache, PageInfo};
use groon::errors::{get_groon_error_html, GroonError, TagParseError, TagProcessingError};
use groon::markup::{process_markdown_file, read_markdown_file};
use groon::parse::GroonTag;
use groon::render::{
    expand_groon_tag, is_outdated, load_html_to_cache, load_markdown_to_cache, process_html_file,
    read_html_file, read_html_or_load_from_cache, read_markdown_or_load_from_cache, Renderer,
    Reply, Request,
};

/// Files by path, each with its modification time and its text, and a
/// record of what was asked of them.
struct Disk {
    files: HashMap<String, (u64, String)>,
    stats: Vec<String>,
    reads: Vec<String>,
}

impl Disk {
    fn new() -> Disk {
        Disk { files: HashMap::new(), stats: vec![], reads: vec![] }
    }

    fn write(&mut self, path: &str, at: u64, text: &str) {
        self.files.insert(path.to_string(), (at, text.to_string()));
    }

    fn forget(&mut self) {
        self.stats.clear();
        self.reads.clear();
    }
}

fn drive(
    disk: &mut Disk,
    cache: &mut PageCache,
    started: (Renderer, Request),
    now: u64,
) -> Result<HTMLFile, GroonError> {
    drive_on(disk, cache, started, now).map(|(page, _)| page)
}

/// Drives a renderer to its end, and says with the page whether a page
/// was rendered anew.
fn drive_on(
    disk: &mut Disk,
    cache: &mut PageCache,
    started: (Renderer, Request),
    now: u64,
) -> Result<(HTMLFile, bool), GroonError> {
    let (mut renderer, mut request) = started;
    loop {
        let reply = match request {
            Request::Done(page) => return Ok((page, renderer.rendered_anew())),
            Request::Failed(e) => return Err(e),
            Request::Stat(path) => {
                disk.stats.push(path.clone());
                match disk.files.get(&path) {
                    Some((at, _)) => Reply::Modified(*at),
                    None => Reply::Failed(format!("no file {}", path)),
                }
            }
            Request::Read(path) => {
                disk.reads.push(path.clone());
                match disk.files.get(&path) {
                    Some((_, text)) => Reply::Text(text.clone()),
                    None => Reply::Failed(format!("no file {}", path)),
                }
            }
        };
        assert!(renderer.accepts(&reply));
        request = renderer.step(cache, reply, now);
    }
}

fn render(disk: &mut Disk, cache: &mut PageCache, path: &str, now: u64) -> Result<HTMLFile, GroonError> {
    let started = process_html_file(path.to_string(), "/tpl".to_string(), cache);
    drive(disk, cache, started, now)
}

fn strings(items: &[&str]) -> Vec<String> {
    items.iter().map(|s| s.to_string()).collect()
}

#[test]
fn page_with_footer_follows_the_footer() {
    let mut disk = Disk::new();
    let mut cache = PageCache::new();
    disk.write("/www/index.html", 10, "<?groon insert=\"footer.html\">");
    disk.write("/tpl/footer.html", 10, "<p>Footer</p>");

    let first = render(&mut disk, &mut cache, "/www/index.html", 100).unwrap();
    assert_eq!(first.content, "<p>Footer</p>");
    assert_eq!(first.dependencies, strings(&["/tpl/footer.html"]));
    assert!(cache.has_page("/tpl/footer.html"));
    assert!(cache.has_page("/www/index.html"));

    disk.write("/tpl/footer.html", 200, "<p>New</p>");
    let second = render(&mut disk, &mut cache, "/www/index.html", 300).unwrap();
    assert_eq!(second.content, "<p>New</p>");
    assert_eq!(second.dependencies, strings(&["/tpl/footer.html"]));
}

#[test]
fn page_of_its_own_name_is_refused() {
    let mut disk = Disk::new();
    let mut cache = PageCache::new();
    disk.write("/www/a.html", 10, "<?groon insert=\"a.html\">");
    disk.write("/tpl/a.html", 10, "other");
    assert_eq!(
        render(&mut disk, &mut cache, "/www/a.html", 100),
        Err(GroonError::TagProcessing(TagProcessingError::SelfRefelercial("a.html".to_string())))
    );
    assert!(!cache.has_page("/www/a.html"));
    assert!(!cache.has_page("/tpl/a.html"));
    assert_eq!(disk.reads, strings(&["/www/a.html"]));
}

#[test]
fn failed_page_keeps_its_old_entry() {
    let mut disk = Disk::new();
    let mut cache = PageCache::new();
    disk.write("/www/a.html", 10, "fine");
    render(&mut disk, &mut cache, "/www/a.html", 100).unwrap();
    let before = cache.get_page("/www/a.html").cloned();
    disk.write("/www/a.html", 200, "x<?groon insert=\"sub/a.html\">");
    assert_eq!(
        render(&mut disk, &mut cache, "/www/a.html", 300),
        Err(GroonError::TagProcessing(TagProcessingError::SelfRefelercial(
            "sub/a.html".to_string()
        )))
    );
    assert_eq!(cache.get_page("/www/a.html").cloned(), before);
}

#[test]
fn rendering_twice_reads_once() {
    let mut disk = Disk::new();
    let mut cache = PageCache::new();
    disk.write("/www/index.html", 10, "<h1>x</h1><?groon insert=\"footer.html\">!");
    disk.write("/tpl/footer.html", 10, "<p>Footer</p>");
    let first = render(&mut disk, &mut cache, "/www/index.html", 100).unwrap();
    assert_eq!(first.content, "<h1>x</h1><p>Footer</p>!");
    assert_eq!(disk.reads, strings(&["/www/index.html", "/tpl/footer.html"]));
    assert_eq!(disk.stats, strings(&[]));

    disk.forget();
    let second = render(&mut disk, &mut cache, "/www/index.html", 200).unwrap();
    assert_eq!(second, first);
    assert_eq!(disk.reads, strings(&[]));
    assert_eq!(disk.stats, strings(&["/tpl/footer.html", "/www/index.html"]));

    let entry = cache.get_page("/www/index.html").unwrap();
    assert_eq!(entry.last_modified, 100);
    assert_eq!(entry.last_accessed, 200);
    assert_eq!(entry.req_count, 2);
}

#[test]
fn changed_page_is_rendered_again() {
    let mut disk = Disk::new();
    let mut cache = PageCache::new();
    disk.write("/www/index.html", 10, "old");
    assert_eq!(render(&mut disk, &mut cache, "/www/index.html", 100).unwrap().content, "old");
    // a change in the tick of the rendering counts as a change
    disk.write("/www/index.html", 100, "new");
    assert_eq!(render(&mut disk, &mut cache, "/www/index.html", 150).unwrap().content, "new");
    disk.write("/www/index.html", 149, "newer");
    assert_eq!(render(&mut disk, &mut cache, "/www/index.html", 200).unwrap().content, "new");
}

#[test]
fn changed_dependency_is_read_again() {
    let mut disk = Disk::new();
    let mut cache = PageCache::new();
    disk.write("/www/a.html", 10, "[<?groon insert=\"b.html\">]");
    disk.write("/tpl/b.html", 10, "one");
    assert_eq!(render(&mut disk, &mut cache, "/www/a.html", 100).unwrap().content, "[one]");
    disk.write("/tpl/b.html", 150, "two");
    disk.forget();
    assert_eq!(render(&mut disk, &mut cache, "/www/a.html", 200).unwrap().content, "[two]");
    assert_eq!(disk.reads, strings(&["/tpl/b.html", "/www/a.html"]));
    assert_eq!(cache.get_page("/www/a.html").unwrap().contents, Some("[two]".to_string()));
    assert_eq!(cache.get_page("/tpl/b.html").unwrap().contents, Some("two".to_string()));
}

#[test]
fn only_direct_dependencies_are_recorded() {
    let mut disk = Disk::new();
    let mut cache = PageCache::new();
    disk.write("/www/a.html", 10, "a(<?groon insert=\"b.html\">)");
    disk.write("/tpl/b.html", 10, "b(<?groon insert=\"c.html\">)");
    disk.write("/tpl/c.html", 10, "c");
    let page = render(&mut disk, &mut cache, "/www/a.html", 100).unwrap();
    assert_eq!(page.content, "a(b(c))");
    assert_eq!(page.dependencies, strings(&["/tpl/b.html"]));
    assert_eq!(
        cache.get_page("/www/a.html").unwrap().dependencies,
        strings(&["/tpl/b.html"])
    );
    assert_eq!(
        cache.get_page("/tpl/b.html").unwrap().dependencies,
        strings(&["/tpl/c.html"])
    );
    assert_eq!(cache.get_page("/tpl/c.html").unwrap().dependencies, strings(&[]));
}

#[test]
fn dependency_asked_for_twice_is_listed_once() {
    let mut disk = Disk::new();
    let mut cache = PageCache::new();
    disk.write("/www/a.html", 10, "<?groon insert=\"b.html\">-<?groon insert=\"b.html\">");
    disk.write("/tpl/b.html", 10, "b");
    let page = render(&mut disk, &mut cache, "/www/a.html", 100).unwrap();
    assert_eq!(page.content, "b-b");
    assert_eq!(page.dependencies, strings(&["/tpl/b.html"]));
    assert_eq!(disk.reads, strings(&["/www/a.html", "/tpl/b.html"]));
}

#[test]
fn cycle_is_found() {
    let mut disk = Disk::new();
    let mut cache = PageCache::new();
    disk.write("/tpl/a.html", 10, "<?groon insert=\"b.html\">");
    disk.write("/tpl/b.html", 10, "<?groon insert=\"a.html\">");
    assert_eq!(
        render(&mut disk, &mut cache, "/tpl/a.html", 100),
        Err(GroonError::TagProcessing(TagProcessingError::DependencyCycle {
            file: "/tpl/a.html".to_string(),
            dep: "/tpl/b.html".to_string()
        }))
    );
    assert!(!cache.has_page("/tpl/a.html"));
    assert!(!cache.has_page("/tpl/b.html"));
}

#[test]
fn page_on_the_given_chain_is_a_cycle() {
    let mut disk = Disk::new();
    let mut cache = PageCache::new();
    disk.write("/tpl/b.html", 10, "<?groon insert=\"a.html\">");
    let started = read_html_or_load_from_cache(
        "/tpl/b.html".to_string(),
        "/tpl".to_string(),
        &cache,
        strings(&["/tpl/a.html"]),
    );
    assert_eq!(
        drive(&mut disk, &mut cache, started, 100),
        Err(GroonError::TagProcessing(TagProcessingError::DependencyCycle {
            file: "/tpl/b.html".to_string(),
            dep: "/tpl/a.html".to_string()
        }))
    );
}

#[test]
fn directive_in_comment_leaves_no_trace() {
    let mut disk = Disk::new();
    let mut cache = PageCache::new();
    disk.write("/www/a.html", 10, "a<!-- <?groon insert=\"b.html\"> -->z");
    let page = render(&mut disk, &mut cache, "/www/a.html", 100).unwrap();
    assert_eq!(page.content, "az");
    assert_eq!(page.dependencies, strings(&[]));
    assert_eq!(disk.reads, strings(&["/www/a.html"]));
    assert!(!cache.has_page("/tpl/b.html"));
}

#[test]
fn markdown_is_converted_where_it_is_inserted() {
    let mut disk = Disk::new();
    let mut cache = PageCache::new();
    disk.write("/www/a.html", 10, "<div><?groon insert=\"note.md\"></div>");
    disk.write("/tpl/note.md", 10, "# Hi");
    let page = render(&mut disk, &mut cache, "/www/a.html", 100).unwrap();
    assert_eq!(page.content, "<div><h1>Hi</h1></div>");
    assert_eq!(page.dependencies, strings(&["/tpl/note.md"]));
    assert_eq!(
        cache.get_page("/tpl/note.md").unwrap().contents,
        Some("<h1>Hi</h1>".to_string())
    );
    // a directive in Markdown is text
    disk.write("/tpl/note.md", 150, "<?groon insert=\"x.html\">");
    let again = render(&mut disk, &mut cache, "/www/a.html", 200).unwrap();
    assert_eq!(again.dependencies, strings(&["/tpl/note.md"]));
    assert!(!cache.has_page("/tpl/x.html"));
}

#[test]
fn markdown_by_itself() {
    assert_eq!(process_markdown_file("# Hi"), "<h1>Hi</h1>");
    assert_eq!(process_markdown_file("~gone~"), "<p><del>gone</del></p>");
    assert_eq!(
        read_markdown_file("*it*"),
        HTMLFile { content: "<p><em>it</em></p>".to_string(), dependencies: vec![] }
    );
}

#[test]
fn missing_file_fails_and_stores_nothing() {
    let mut disk = Disk::new();
    let mut cache = PageCache::new();
    assert_eq!(
        render(&mut disk, &mut cache, "/www/none.html", 100),
        Err(GroonError::IO("no file /www/none.html".to_string()))
    );
    assert!(!cache.has_page("/www/none.html"));

    disk.write("/www/a.html", 10, "x<?groon insert=\"gone.html\">");
    assert_eq!(
        render(&mut disk, &mut cache, "/www/a.html", 100),
        Err(GroonError::IO("no file /tpl/gone.html".to_string()))
    );
    assert!(!cache.has_page("/www/a.html"));
    assert!(!cache.has_page("/tpl/gone.html"));
}

#[test]
fn cached_page_without_file_fails() {
    let mut disk = Disk::new();
    let mut cache = PageCache::new();
    disk.write("/www/a.html", 10, "x");
    render(&mut disk, &mut cache, "/www/a.html", 100).unwrap();
    disk.files.clear();
    assert_eq!(
        render(&mut disk, &mut cache, "/www/a.html", 200),
        Err(GroonError::IO("no file /www/a.html".to_string()))
    );
}

#[test]
fn parse_error_ends_the_rendering() {
    let mut disk = Disk::new();
    let mut cache = PageCache::new();
    disk.write("/www/a.html", 10, "<?groon insert=\"b.html\">");
    disk.write("/tpl/b.html", 10, "<?groon insert=\"c.txt\">");
    assert_eq!(
        render(&mut disk, &mut cache, "/www/a.html", 100),
        Err(GroonError::TagParse(TagParseError::InvalidInsertFileType {
            file: "/tpl/b.html".to_string()
        }))
    );
    assert!(!cache.has_page("/www/a.html"));
    assert!(!cache.has_page("/tpl/b.html"));
}

#[test]
fn entry_without_contents_is_rendered() {
    let mut disk = Disk::new();
    let mut cache = PageCache::new();
    cache.add_page(
        "/www/a.html".to_string(),
        PageInfo {
            contents: None,
            dependencies: vec![],
            last_modified: 50,
            last_accessed: 50,
            req_count: 0,
        },
    );
    disk.write("/www/a.html", 10, "text");
    assert_eq!(render(&mut disk, &mut cache, "/www/a.html", 100).unwrap().content, "text");
    assert_eq!(cache.get_page("/www/a.html").unwrap().contents, Some("text".to_string()));
}

#[test]
fn renderer_waits_for_the_reply_it_asked_for() {
    let mut cache = PageCache::new();
    let (mut renderer, request) =
        process_html_file("/www/a.html".to_string(), "/tpl".to_string(), &cache);
    assert_eq!(request, Request::Read("/www/a.html".to_string()));
    assert!(renderer.accepts(&Reply::Text("x".to_string())));
    assert!(renderer.accepts(&Reply::Failed("x".to_string())));
    assert!(!renderer.accepts(&Reply::Modified(1)));
    let done = renderer.step(&mut cache, Reply::Text("x".to_string()), 5);
    assert_eq!(done, Request::Done(HTMLFile { content: "x".to_string(), dependencies: vec![] }));
    assert!(!renderer.accepts(&Reply::Text("x".to_string())));
    assert!(!renderer.accepts(&Reply::Failed("x".to_string())));

    let (renderer, request) =
        process_html_file("/www/a.html".to_string(), "/tpl".to_string(), &cache);
    assert_eq!(request, Request::Stat("/www/a.html".to_string()));
    assert!(renderer.accepts(&Reply::Modified(1)));
    assert!(!renderer.accepts(&Reply::Text("x".to_string())));
}

#[test]
fn directive_is_checked_before_its_file_is_taken_up() {
    let tag = GroonTag::Insert("sub/b.html".to_string());
    assert_eq!(
        expand_groon_tag(&tag, "/www/a.html", "/tpl", &strings(&["/tpl/c.html"])),
        Ok("/tpl/sub/b.html".to_string())
    );
    assert_eq!(
        expand_groon_tag(&tag, "/www/b.html", "/tpl", &strings(&[])),
        Err(TagProcessingError::SelfRefelercial("sub/b.html".to_string()))
    );
    assert_eq!(
        expand_groon_tag(&tag, "/www/a.html", "/tpl", &strings(&["/x", "/tpl/sub/b.html"])),
        Err(TagProcessingError::DependencyCycle {
            file: "/www/a.html".to_string(),
            dep: "/tpl/sub/b.html".to_string()
        })
    );
    // a file of the page's own name is refused before the chain is looked at
    assert_eq!(
        expand_groon_tag(&tag, "/tpl/sub/b.html", "/tpl", &strings(&["/tpl/sub/b.html"])),
        Err(TagProcessingError::SelfRefelercial("sub/b.html".to_string()))
    );
}

#[test]
fn entry_is_outdated_from_its_own_tick_on() {
    let mut cache = PageCache::new();
    cache.add_page("/a.html".to_string(), PageInfo::new(100));
    assert!(!is_outdated("/a.html", 99, &cache));
    assert!(is_outdated("/a.html", 100, &cache));
    assert!(is_outdated("/a.html", 101, &cache));
}

#[test]
fn error_page_frames_message_and_source() {
    let html = get_groon_error_html("Tag parsing error", "Unclosed comment. File a.html");
    assert!(html.starts_with("\n    <!DOCTYPE html>\n    <html>\n        <head>\n"));
    assert!(html.contains("                .error-box {\n                    margin: auto;\n"));
    assert!(html.ends_with(
        "                <h1>Groon error</h1>\n                <p>Tag parsing error</p>\n                <p>Unclosed comment. File a.html</p>\n            </div>\n        </body>\n    </html>\n    "
    ));
    assert_eq!(html.len(), get_groon_error_html("", "").len() + 46);
}

#[test]
fn entry_is_brought_up_to_date_only_when_stale() {
    let mut disk = Disk::new();
    let mut cache = PageCache::new();
    disk.write("/tpl/a.html", 10, "one");
    let started = load_html_to_cache("/tpl/a.html".to_string(), "/tpl".to_string(), &cache);
    let (_, anew) = drive_on(&mut disk, &mut cache, started, 100).unwrap();
    assert!(anew);
    let entry = cache.get_page("/tpl/a.html").unwrap().clone();
    assert_eq!(
        entry,
        PageInfo {
            contents: Some("one".to_string()),
            dependencies: vec![],
            last_modified: 100,
            last_accessed: 100,
            req_count: 0
        }
    );

    disk.forget();
    let started = load_html_to_cache("/tpl/a.html".to_string(), "/tpl".to_string(), &cache);
    let (_, anew) = drive_on(&mut disk, &mut cache, started, 200).unwrap();
    assert!(!anew);
    assert_eq!(disk.reads, strings(&[]));
    assert_eq!(cache.get_page("/tpl/a.html"), Some(&entry));

    disk.write("/tpl/a.html", 250, "two");
    let started = load_html_to_cache("/tpl/a.html".to_string(), "/tpl".to_string(), &cache);
    let (_, anew) = drive_on(&mut disk, &mut cache, started, 300).unwrap();
    assert!(anew);
    let entry = cache.get_page("/tpl/a.html").unwrap();
    assert_eq!(entry.contents, Some("two".to_string()));
    assert_eq!(entry.last_modified, 300);
    assert_eq!(entry.last_accessed, 100);
    assert_eq!(entry.req_count, 0);
}

#[test]
fn markdown_entry_is_brought_up_to_date() {
    let mut disk = Disk::new();
    let mut cache = PageCache::new();
    disk.write("/tpl/a.md", 10, "*a*");
    let started = load_markdown_to_cache("/tpl/a.md".to_string(), &cache);
    let (_, anew) = drive_on(&mut disk, &mut cache, started, 100).unwrap();
    assert!(anew);
    assert_eq!(
        cache.get_page("/tpl/a.md").unwrap().contents,
        Some("<p><em>a</em></p>".to_string())
    );
    let started = load_markdown_to_cache("/tpl/a.md".to_string(), &cache);
    let (_, anew) = drive_on(&mut disk, &mut cache, started, 200).unwrap();
    assert!(!anew);
}

#[test]
fn markdown_page_is_served_from_its_entry() {
    let mut disk = Disk::new();
    let mut cache = PageCache::new();
    disk.write("/tpl/a.md", 10, "# A");
    let started = read_markdown_or_load_from_cache("/tpl/a.md".to_string(), &cache);
    let (page, anew) = drive_on(&mut disk, &mut cache, started, 100).unwrap();
    assert_eq!(page, HTMLFile { content: "<h1>A</h1>".to_string(), dependencies: vec![] });
    assert!(anew);
    assert_eq!(cache.get_page("/tpl/a.md").unwrap().req_count, 1);

    disk.forget();
    let started = read_markdown_or_load_from_cache("/tpl/a.md".to_string(), &cache);
    let (again, anew) = drive_on(&mut disk, &mut cache, started, 200).unwrap();
    assert_eq!(again, page);
    assert!(!anew);
    assert_eq!(disk.reads, strings(&[]));
    assert_eq!(cache.get_page("/tpl/a.md").unwrap().req_count, 2);
    assert_eq!(cache.get_page("/tpl/a.md").unwrap().last_accessed, 200);
}

#[test]
fn page_read_from_its_file_is_not_stored() {
    let mut disk = Disk::new();
    let mut cache = PageCache::new();
    disk.write("/www/a.html", 10, "a<?groon insert=\"b.html\">");
    disk.write("/tpl/b.html", 10, "b");
    let started = read_html_file("/www/a.html".to_string(), "/tpl".to_string(), &cache, vec![]);
    let page = drive(&mut disk, &mut cache, started, 100).unwrap();
    assert_eq!(page.content, "ab");
    assert_eq!(page.dependencies, strings(&["/tpl/b.html"]));
    assert!(!cache.has_page("/www/a.html"));
    assert!(cache.has_page("/tpl/b.html"));

    // the file is read whatever the cache holds
    disk.forget();
    let started = read_html_file("/www/a.html".to_string(), "/tpl".to_string(), &cache, vec![]);
    drive(&mut disk, &mut cache, started, 200).unwrap();
    assert_eq!(disk.reads, strings(&["/www/a.html"]));
    assert_eq!(disk.stats, strings(&["/tpl/b.html"]));
}

#[test]
fn page_by_itself_does_not_look_at_its_dependencies_first() {
    let mut disk = Disk::new();
    let mut cache = PageCache::new();
    disk.write("/www/a.html", 10, "[<?groon insert=\"b.html\">]");
    disk.write("/tpl/b.html", 10, "one");
    render(&mut disk, &mut cache, "/www/a.html", 100).unwrap();
    disk.write("/tpl/b.html", 150, "two");
    disk.forget();
    let started = read_html_or_load_from_cache(
        "/www/a.html".to_string(),
        "/tpl".to_string(),
        &cache,
        vec![],
    );
    let page = drive(&mut disk, &mut cache, started, 200).unwrap();
    assert_eq!(page.content, "[one]");
    assert_eq!(disk.stats, strings(&["/www/a.html"]));
}
