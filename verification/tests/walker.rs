use mdbook_merjong::cli::{run, Command, Directive};
use mdbook_merjong::walker::{Book, BookItem, Chapter, Merjong};

fn chapter(name: &str, content: &str, sub_items: Vec<BookItem>) -> Chapter {
    Chapter {
        name: name.as_bytes().to_vec(),
        content: content.as_bytes().to_vec(),
        sub_items,
    }
}

#[test]
fn only_the_tagged_chapter_changes() {
    let tagged = "```merjong\n234m-234m\n```";
    let plain = "# Second\n\nnothing to see here\n";
    let book = Book {
        sections: vec![
            BookItem::Chapter(chapter("First", tagged, Vec::new())),
            BookItem::Chapter(chapter("Second", plain, Vec::new())),
        ],
    };
    let out = Merjong.run(book);
    assert_eq!(out.sections.len(), 2);
    match &out.sections[0] {
        BookItem::Chapter(c) => {
            assert_eq!(c.content, b"<pre class=\"merjong\">234m-234m</pre>".to_vec());
        }
        _ => panic!("first section should stay a chapter"),
    }
    match &out.sections[1] {
        BookItem::Chapter(c) => {
            assert_eq!(c.content, plain.as_bytes().to_vec());
            assert_eq!(c.name, b"Second".to_vec());
        }
        _ => panic!("second section should stay a chapter"),
    }
}

#[test]
fn nested_chapters_are_walked_depth_first() {
    let sub = chapter("Leaf", "```merjong\n111m\n```", Vec::new());
    let top = chapter("Top", "no blocks here\n", vec![BookItem::Chapter(sub)]);
    let book = Book { sections: vec![BookItem::Chapter(top), BookItem::Separator] };
    let out = Merjong.run(book);
    match &out.sections[0] {
        BookItem::Chapter(c) => {
            assert_eq!(c.content, b"no blocks here\n".to_vec());
            match &c.sub_items[0] {
                BookItem::Chapter(leaf) => {
                    assert_eq!(leaf.content, b"<pre class=\"merjong\">111m</pre>".to_vec());
                }
                _ => panic!("nested item should stay a chapter"),
            }
        }
        _ => panic!("top section should stay a chapter"),
    }
    assert!(matches!(out.sections[1], BookItem::Separator));
}

#[test]
fn separators_and_part_titles_pass_through() {
    let book = Book {
        sections: vec![BookItem::Separator, BookItem::PartTitle(b"Part One".to_vec())],
    };
    let out = Merjong.run(book);
    assert!(matches!(out.sections[0], BookItem::Separator));
    match &out.sections[1] {
        BookItem::PartTitle(t) => assert_eq!(t, &b"Part One".to_vec()),
        _ => panic!("part title should pass through"),
    }
}

#[test]
fn empty_book_stays_empty() {
    let out = Merjong.run(Book { sections: Vec::new() });
    assert_eq!(out.sections.len(), 0);
}

#[test]
fn preprocessor_name_is_fixed() {
    assert_eq!(Merjong.name(), "merjong");
}

#[test]
fn every_renderer_is_supported() {
    assert!(Merjong.supports_renderer("html"));
    assert!(Merjong.supports_renderer("anything-else"));
}

#[test]
fn preprocess_command_runs_the_preprocessor() {
    assert!(matches!(run(Command::Preprocess), Directive::RunPreprocessor));
}

#[test]
fn supports_command_exits_zero() {
    let d = run(Command::Supports { renderer: "html".to_string() });
    assert!(matches!(d, Directive::Exit { code: 0 }));
}

#[test]
fn install_command_runs_the_install_pathway() {
    assert!(matches!(run(Command::Install), Directive::RunInstall));
}
