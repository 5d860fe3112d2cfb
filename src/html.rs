//! The HTML page frame of the dashboard.

use vstd::prelude::*;

verus! {

/// Everything of a page before its title.
pub const PAGE_HEAD: &'static str = r#"<!doctype html>
<html lang="en">
  <head>
    <meta charset="utf-8" />
    <meta name="viewport" content="width=device-width, initial-scale=1" />
    <title>"#;

/// Everything of a page between its title and its body, styles included.
pub const PAGE_STYLE: &'static str = r#"</title>
    <style>
      body { font-family: ui-sans-serif, system-ui, -apple-system, Segoe UI, Roboto, Arial; margin: 24px; line-height: 1.35; }
      h1 { margin: 0 0 12px 0; }
      h2 { margin: 0 0 12px 0; font-size: 18px; }
      a { color: #0b62d6; }
      table { width: 100%; border-collapse: collapse; }
      th, td { border-bottom: 1px solid #ddd; padding: 8px; vertical-align: top; }
      th { text-align: left; }
      .card { border: 1px solid #e5e5e5; border-radius: 12px; padding: 16px; margin: 16px 0; }
      .grid { display: grid; gap: 16px; grid-template-columns: repeat(auto-fit, minmax(260px, 1fr)); }
      .mono { font-family: ui-monospace, SFMono-Regular, Menlo, Monaco, Consolas, 'Liberation Mono', 'Courier New', monospace; }
      input { width: 100%; padding: 10px; border: 1px solid #ccc; border-radius: 10px; margin-bottom: 10px; }
      button { padding: 10px 14px; border-radius: 10px; border: 1px solid #0b62d6; background: #0b62d6; color: white; cursor: pointer; }
      .result { margin-top: 10px; }
      .big { font-size: 22px; margin: 8px 0; }
      .qr { width: 240px; height: 240px; image-rendering: pixelated; }
    </style>
  </head>
  <body>
    "#;

/// Everything of a page after its body.
pub const PAGE_FOOT: &'static str = r#"
  </body>
</html>"#;

/// A full HTML page with `title` and `body`, neither escaped.
pub open spec fn page(title: Seq<char>, body: Seq<char>) -> Seq<char> {
    PAGE_HEAD@ + title + PAGE_STYLE@ + body + PAGE_FOOT@
}

/// Frames `body` as an HTML page titled `title`.
pub fn layout(title: &str, body: &str) -> (r: String)
    ensures
        r@ == page(title@, body@),
{
    let mut s = PAGE_HEAD.to_owned();
    s.append(title);
    s.append(PAGE_STYLE);
    s.append(body);
    s.append(PAGE_FOOT);
    s
}

} // verus!
