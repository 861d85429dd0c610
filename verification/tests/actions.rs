use qfind::actions::{
    can_thumbnail, extension, folder_size_text, is_raster_image, is_textish, raster_thumbnail,
    thumbnail_size, thumbnailer, thumbnailer_command, Thumbnailer,
};

fn word(s: &str) -> Vec<char> {
    s.chars().collect()
}

#[test]
fn extensions_are_lowercased() {
    assert_eq!(extension("/x/Photo.JPG"), word("jpg"));
    assert_eq!(extension("/x/noext"), word(""));
    assert_eq!(extension("/x/.hidden"), word(""));
}

#[test]
fn raster_images_by_extension() {
    assert!(is_raster_image("/x/a.PNG"));
    assert!(is_raster_image("/x/a.webp"));
    assert!(!is_raster_image("/x/a.svg"));
    assert!(!is_raster_image("/x/png"));
}

#[test]
fn thumbnailers_by_extension() {
    assert_eq!(thumbnailer(&word("jpeg")), Some(Thumbnailer::Raster));
    assert_eq!(thumbnailer(&word("svgz")), Some(Thumbnailer::Vector));
    assert_eq!(thumbnailer(&word("djvu")), Some(Thumbnailer::Document));
    assert_eq!(thumbnailer(&word("opus")), Some(Thumbnailer::Audio));
    assert_eq!(thumbnailer(&word("m4v")), Some(Thumbnailer::Video));
    assert_eq!(thumbnailer(&word("xlsx")), Some(Thumbnailer::Office));
    assert_eq!(thumbnailer(&word("rs")), None);
    assert!(can_thumbnail("/x/Report.PDF"));
    assert!(!can_thumbnail("/x/main.rs"));
}

#[test]
fn thumbnail_sizes_are_capped() {
    assert_eq!(thumbnail_size(1000, 800), 1000);
    assert_eq!(thumbnail_size(200, 300), 300);
    assert_eq!(thumbnail_size(5000, 10), 1600);
}

#[test]
fn textish_files() {
    assert!(is_textish("text/plain", "/x/a"));
    assert!(is_textish("application/json", "/x/a"));
    assert!(is_textish("application/xhtml+xml", "/x/a"));
    assert!(is_textish("application/octet-stream", "/x/main.rs"));
    assert!(!is_textish("application/octet-stream", "/x/main.RS"));
    assert!(!is_textish("image/png", "/x/a.png"));
}

#[test]
fn folder_size_texts() {
    assert_eq!(folder_size_text(Some(2048), false), "2.0 KB");
    assert_eq!(folder_size_text(None, true), "Unavailable");
    assert_eq!(folder_size_text(None, false), "Measuring…");
}

fn command(program: &str, args: &[&str]) -> Option<(String, Vec<String>)> {
    Some((program.to_string(), args.iter().map(|a| a.to_string()).collect()))
}

fn png_of(width: u32, height: u32) -> Vec<u8> {
    let picture = image::DynamicImage::ImageRgb8(image::RgbImage::new(width, height));
    let mut out = std::io::Cursor::new(Vec::new());
    picture.write_to(&mut out, image::ImageFormat::Png).unwrap();
    out.into_inner()
}

#[test]
fn raster_pictures_get_no_external_command() {
    assert_eq!(thumbnailer_command(Thumbnailer::Raster, "/x/a.png", "/t/o.png", 300, 200), None);
}

#[test]
fn external_thumbnailer_commands() {
    assert_eq!(
        thumbnailer_command(Thumbnailer::Vector, "/x/a.svg", "/t/o.png", 300, 200),
        command(
            "rsvg-convert",
            &["--format", "png", "--keep-aspect-ratio", "--width", "300", "--height", "200", "--output", "/t/o.png", "/x/a.svg"],
        )
    );
    assert_eq!(
        thumbnailer_command(Thumbnailer::Document, "/x/a.pdf", "/t/o.png", 300, 200),
        command("evince-thumbnailer", &["-s", "300", "/x/a.pdf", "/t/o.png"])
    );
    assert_eq!(
        thumbnailer_command(Thumbnailer::Audio, "/x/a.mp3", "/t/o.png", 300, 200),
        command(
            "ffmpeg",
            &[
                "-hide_banner",
                "-loglevel",
                "error",
                "-y",
                "-i",
                "/x/a.mp3",
                "-filter_complex",
                "aformat=channel_layouts=mono,showwavespic=s=300x200:colors=#8aa4ff",
                "-frames:v",
                "1",
                "/t/o.png",
            ],
        )
    );
    assert_eq!(
        thumbnailer_command(Thumbnailer::Video, "/x/a.mkv", "/t/o.png", 100, 2000),
        command("ffmpegthumbnailer", &["-i", "/x/a.mkv", "-o", "/t/o.png", "-s", "1600", "-c", "png", "-t", "10%"])
    );
    assert_eq!(
        thumbnailer_command(Thumbnailer::Office, "/x/a.odt", "/t/o.png", 640, 480),
        command("gsf-office-thumbnailer", &["-i", "/x/a.odt", "-o", "/t/o.png", "-s", "640"])
    );
}

#[test]
fn raster_thumbnails_fit_the_requested_box() {
    let png = raster_thumbnail(&png_of(8, 4), "/x/a.png", 4, 4).unwrap();
    let small = image::load_from_memory(&png).unwrap();
    assert_eq!((small.width(), small.height()), (4, 2));
}

#[test]
fn raster_thumbnails_take_at_least_one_pixel() {
    let png = raster_thumbnail(&png_of(8, 4), "/x/a.png", 0, 0).unwrap();
    let small = image::load_from_memory(&png).unwrap();
    assert!(small.width() <= 1 && small.height() <= 1);
}

#[test]
fn raster_thumbnails_of_garbage_fail() {
    assert_eq!(raster_thumbnail(b"not a picture", "/x/a.png", 64, 64), None);
}
