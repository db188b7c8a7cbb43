use mailsync::html::sanitize_html;

#[test]
fn scripts_go_and_lazy_images_stay() {
    let out = sanitize_html("<p>hi<script>alert(1)</script></p><img src=\"x.png\" loading=\"lazy\" onerror=\"evil()\">");
    assert!(!out.contains("script"));
    assert!(!out.contains("onerror"));
    assert!(out.contains("<img"));
    assert!(out.contains("loading=\"lazy\""));
    assert!(out.contains("<p>hi</p>"));
}
