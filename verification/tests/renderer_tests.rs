use renderer::format::{guess_model_extension, model_format, ModelFormat};
use renderer::options::{render_thumbnail, RenderError, RenderOptions, RgbaBitmap};
use renderer::provider::{
    find_provider, rgba_to_bgra, shell_thumbnail_size, stream_extension, CopyStep, StreamCopy,
    CLSID_FBX_PROVIDER, CLSID_GLB_PROVIDER, CLSID_GLTF_PROVIDER, CLSID_LEGACY_PROVIDER,
    CLSID_OBJ_PROVIDER,
};
use renderer::raster::{
    bitmap_pixel, modulate, store_fragment, store_pixel, visible_bounds, VisibleBounds,
};
use renderer::scene::{
    default_material_data, face_material_index, read_pair, read_triple, sequential_indices,
    triangle_indices, Scene, Triangle,
};
use renderer::texture::{gltf_image_to_texture, texcoord_set, PixelFormat, Texture, WrapMode};

fn scene_of(n: usize) -> Scene<u32> {
    let mut scene = Scene::new();
    for i in 0..n {
        scene.triangles.push(Triangle {
            vertices: [3 * i as u32, 3 * i as u32 + 1, 3 * i as u32 + 2],
            color: [1, 2, 3, 4],
            texture: None,
        });
    }
    scene
}

#[test]
fn default_options_are_256_px_and_120000_triangles() {
    let options = RenderOptions::default();
    assert_eq!(options.size, 256);
    assert_eq!(options.max_triangles, 120_000);
}

#[test]
fn empty_scene_is_refused() {
    let res = render_thumbnail(Scene::<u32>::new(), &RenderOptions::default());
    assert!(matches!(res, Err(RenderError::EmptyModel)));
}

#[test]
fn scene_within_budget_is_kept_whole() {
    let job = render_thumbnail(scene_of(3), &RenderOptions::default()).unwrap();
    assert_eq!(job.scene.triangles.len(), 3);
    assert_eq!(job.scene.triangles[2].vertices, [6, 7, 8]);
    assert_eq!(job.size, 256);
}

#[test]
fn triangles_beyond_budget_are_dropped_from_the_end() {
    let options = RenderOptions { size: 300, max_triangles: 2 };
    let job = render_thumbnail(scene_of(5), &options).unwrap();
    assert_eq!(job.scene.triangles.len(), 2);
    assert_eq!(job.scene.triangles[0].vertices, [0, 1, 2]);
    assert_eq!(job.scene.triangles[1].vertices, [3, 4, 5]);
    assert_eq!(job.size, 300);
}

#[test]
fn render_size_is_held_between_32_and_1024() {
    let small = render_thumbnail(scene_of(1), &RenderOptions { size: 8, max_triangles: 10 });
    assert_eq!(small.unwrap().size, 32);
    let large = render_thumbnail(scene_of(1), &RenderOptions { size: 5000, max_triangles: 10 });
    assert_eq!(large.unwrap().size, 1024);
    let edge = render_thumbnail(scene_of(1), &RenderOptions { size: 1024, max_triangles: 10 });
    assert_eq!(edge.unwrap().size, 1024);
}

#[test]
fn zero_budget_keeps_no_triangle() {
    let job = render_thumbnail(scene_of(2), &RenderOptions { size: 64, max_triangles: 0 }).unwrap();
    assert_eq!(job.scene.triangles.len(), 0);
}

#[test]
fn bitmap_holds_its_fields() {
    let b = RgbaBitmap { width: 1, height: 1, pixels: vec![1, 2, 3, 4] };
    assert_eq!((b.width, b.height, b.pixels.len()), (1, 1, 4));
}

#[test]
fn extensions_pick_their_loader_in_any_case() {
    assert_eq!(model_format(b"obj").unwrap(), ModelFormat::Obj);
    assert_eq!(model_format(b"OBJ").unwrap(), ModelFormat::Obj);
    assert_eq!(model_format(b"glb").unwrap(), ModelFormat::Gltf);
    assert_eq!(model_format(b"GlTf").unwrap(), ModelFormat::Gltf);
    assert_eq!(model_format(b"Fbx").unwrap(), ModelFormat::Fbx);
}

#[test]
fn other_extensions_are_unsupported() {
    for ext in [&b"stl"[..], b"", b"objx", b"ob", b"gltf2", b"f\xc3\xa9x"] {
        assert!(matches!(model_format(ext), Err(RenderError::UnsupportedFormat)));
    }
}

#[test]
fn magic_bytes_name_binary_formats() {
    assert_eq!(guess_model_extension(b"glTF\x02\x00\x00\x00"), "glb");
    assert_eq!(guess_model_extension(b"Kaydara FBX Binary  \x00"), "fbx");
}

#[test]
fn text_formats_are_told_apart_after_white_space() {
    assert_eq!(guess_model_extension(b"  \n{\"asset\":{}}"), "gltf");
    assert_eq!(guess_model_extension(b"; FBX 7.4.0 project file"), "fbx");
    assert_eq!(guess_model_extension(b"\t\r\nsome text with FBX inside"), "fbx");
    assert_eq!(guess_model_extension(b"v 1 2 3\n"), "obj");
    assert_eq!(guess_model_extension(b"# exported\n"), "obj");
    assert_eq!(guess_model_extension(b"\x0co cube\n"), "obj");
    assert_eq!(guess_model_extension(b"mtllib cube.mtl\n"), "obj");
}

#[test]
fn unknown_bytes_are_taken_for_binary_gltf() {
    assert_eq!(guess_model_extension(b""), "glb");
    assert_eq!(guess_model_extension(b"\x0bv 1 2 3"), "glb");
    assert_eq!(guess_model_extension(b"vertex"), "glb");
    assert_eq!(guess_model_extension(b"FB"), "glb");
    assert_eq!(guess_model_extension(b"gltf"), "glb");
}

#[test]
fn provider_hint_names_the_stream_extension() {
    assert_eq!(stream_extension(".obj", b"glTF"), "obj");
    assert_eq!(stream_extension(".gltf", b"v 1 2 3"), "gltf");
}

#[test]
fn generic_hint_falls_back_to_guessing() {
    assert_eq!(stream_extension(".model", b"glTF"), "glb");
    assert_eq!(stream_extension(".model", b"v 0 0 0"), "obj");
    assert_eq!(stream_extension(".", b"v 0 0 0"), "obj");
    assert_eq!(stream_extension("", b"{}"), "gltf");
    assert_eq!(stream_extension("obj", b"; FBX"), "fbx");
}

#[test]
fn class_ids_find_their_providers() {
    assert_eq!(find_provider(CLSID_LEGACY_PROVIDER), Some(".model"));
    assert_eq!(find_provider(CLSID_OBJ_PROVIDER), Some(".obj"));
    assert_eq!(find_provider(CLSID_FBX_PROVIDER), Some(".fbx"));
    assert_eq!(find_provider(CLSID_GLB_PROVIDER), Some(".glb"));
    assert_eq!(find_provider(CLSID_GLTF_PROVIDER), Some(".gltf"));
    assert_eq!(CLSID_OBJ_PROVIDER, 0x0ef2c8d1_7b70_48c9_b7b8_0f45d3d00001);
    assert_eq!(find_provider(0x0ef2c8d1_7b70_48c9_b7b8_0f45d3d00005), None);
    assert_eq!(find_provider(0), None);
}

#[test]
fn shell_size_is_held_between_32_and_512() {
    assert_eq!(shell_thumbnail_size(0), 32);
    assert_eq!(shell_thumbnail_size(96), 96);
    assert_eq!(shell_thumbnail_size(512), 512);
    assert_eq!(shell_thumbnail_size(2560), 512);
}

#[test]
fn bgra_swaps_red_and_blue() {
    let rgba = [1u8, 2, 3, 4, 5, 6, 7, 8, 9];
    assert_eq!(rgba_to_bgra(&rgba, 10), vec![3, 2, 1, 4, 7, 6, 5, 8]);
    assert_eq!(rgba_to_bgra(&rgba, 1), vec![3, 2, 1, 4]);
    assert_eq!(rgba_to_bgra(&rgba, 0), Vec::<u8>::new());
}

#[test]
fn bgra_twice_restores_the_texels() {
    let rgba: Vec<u8> = (0..40).collect();
    let once = rgba_to_bgra(&rgba, 10);
    assert_ne!(once, rgba);
    assert_eq!(rgba_to_bgra(&once, 10), rgba);
}

#[test]
fn stream_copy_asks_for_what_is_left() {
    let copy = StreamCopy::new(100);
    assert_eq!(copy.next_step(64 * 1024), CopyStep::Read(100));
    assert_eq!(copy.next_step(10), CopyStep::Read(10));
    assert_eq!(copy.next_step(0), CopyStep::Finish);
    let big = StreamCopy::new(u64::MAX);
    assert_eq!(big.next_step(usize::MAX), CopyStep::Read(u32::MAX));
    assert_eq!(StreamCopy::new(0).next_step(64), CopyStep::Finish);
}

#[test]
fn stream_copy_keeps_the_first_128_bytes() {
    let mut copy = StreamCopy::new(300);
    let first: Vec<u8> = (0..100).collect();
    let second: Vec<u8> = (100..200).collect();
    assert!(copy.record_read(&first));
    assert_eq!(copy.remaining, 200);
    assert!(copy.record_read(&second));
    assert_eq!(copy.remaining, 100);
    assert_eq!(copy.prefix, (0..128).collect::<Vec<u8>>());
    assert!(copy.record_read(&[7u8; 150]));
    assert_eq!(copy.remaining, 0);
    assert_eq!(copy.prefix.len(), 128);
    assert_eq!(copy.next_step(64), CopyStep::Finish);
}

#[test]
fn empty_read_ends_the_stream() {
    let mut copy = StreamCopy::new(10);
    assert!(!copy.record_read(&[]));
    assert_eq!(copy.remaining, 10);
    assert!(copy.prefix.is_empty());
}

#[test]
fn modulate_scales_each_channel() {
    assert_eq!(modulate([200, 100, 50, 255], [128, 128, 128, 255]), [100, 50, 25, 255]);
    assert_eq!(modulate([10, 20, 30, 40], [0, 0, 0, 0]), [0, 0, 0, 0]);
}

#[test]
fn modulate_by_white_is_identity() {
    assert_eq!(modulate([17, 99, 254, 3], [255, 255, 255, 255]), [17, 99, 254, 3]);
}

#[test]
fn modulate_commutes() {
    let a = [12, 200, 77, 255];
    let b = [250, 3, 128, 90];
    assert_eq!(modulate(a, b), modulate(b, a));
}

#[test]
fn stored_pixel_reads_back() {
    let mut pixels = vec![0u8; 3 * 3 * 4];
    store_pixel(&mut pixels, 3, 2, 1, [9, 8, 7, 6]);
    assert_eq!(bitmap_pixel(&pixels, 3, 2, 1), [9, 8, 7, 6]);
    assert_eq!(&pixels[20..24], &[9, 8, 7, 6]);
    assert_eq!(bitmap_pixel(&pixels, 3, 1, 1), [0, 0, 0, 0]);
    assert_eq!(pixels.iter().filter(|b| **b != 0).count(), 4);
}

#[test]
fn blank_image_has_no_visible_bounds() {
    let mut pixels = vec![0u8; 4 * 4 * 4];
    pixels[3] = 8;
    assert_eq!(visible_bounds(&pixels, 4), None);
    assert_eq!(visible_bounds(&[], 0), None);
}

#[test]
fn visible_bounds_are_tight() {
    let size = 5u32;
    let mut pixels = vec![0u8; 5 * 5 * 4];
    let mut show = |x: u32, y: u32, a: u8| pixels[((y * size + x) * 4 + 3) as usize] = a;
    show(1, 2, 9);
    show(3, 0, 255);
    show(4, 4, 8);
    show(2, 3, 200);
    assert_eq!(
        visible_bounds(&pixels, size),
        Some(VisibleBounds { min_x: 1, min_y: 0, max_x: 3, max_y: 3 })
    );
}

#[test]
fn single_visible_pixel_is_its_own_box() {
    let mut pixels = vec![0u8; 2 * 2 * 4];
    pixels[(1 * 2 + 1) * 4 + 3] = 255;
    assert_eq!(
        visible_bounds(&pixels, 2),
        Some(VisibleBounds { min_x: 1, min_y: 1, max_x: 1, max_y: 1 })
    );
}

#[test]
fn grey_images_become_opaque_rgba() {
    let t = gltf_image_to_texture(PixelFormat::R8, 2, 1, vec![10, 20]).unwrap();
    assert_eq!(t.pixels, vec![10, 10, 10, 255, 20, 20, 20, 255]);
    let t = gltf_image_to_texture(PixelFormat::R8G8, 1, 1, vec![10, 99, 7]).unwrap();
    assert_eq!(t.pixels, vec![10, 10, 10, 99]);
}

#[test]
fn rgb_images_gain_opaque_alpha() {
    let t = gltf_image_to_texture(PixelFormat::R8G8B8, 2, 1, vec![1, 2, 3, 4, 5, 6, 7]).unwrap();
    assert_eq!(t.pixels, vec![1, 2, 3, 255, 4, 5, 6, 255]);
    assert_eq!((t.width, t.height), (2, 1));
    assert_eq!((t.wrap_s, t.wrap_t, t.flip_v), (WrapMode::Repeat, WrapMode::Repeat, false));
}

#[test]
fn rgba_images_are_kept_as_they_are() {
    let t = gltf_image_to_texture(PixelFormat::R8G8B8A8, 1, 1, vec![1, 2, 3, 4, 5]).unwrap();
    assert_eq!(t.pixels, vec![1, 2, 3, 4, 5]);
}

#[test]
fn sixteen_bit_images_keep_their_high_bytes() {
    let t = gltf_image_to_texture(PixelFormat::R16, 1, 1, vec![0x11, 0x22]).unwrap();
    assert_eq!(t.pixels, vec![0x22, 0x22, 0x22, 255]);
    let t = gltf_image_to_texture(PixelFormat::R16G16, 1, 1, vec![1, 2, 3, 4]).unwrap();
    assert_eq!(t.pixels, vec![2, 2, 2, 4]);
    let t = gltf_image_to_texture(PixelFormat::R16G16B16, 1, 1, vec![1, 2, 3, 4, 5, 6]).unwrap();
    assert_eq!(t.pixels, vec![2, 4, 6, 255]);
    let t =
        gltf_image_to_texture(PixelFormat::R16G16B16A16, 1, 1, vec![1, 2, 3, 4, 5, 6, 7, 8, 9])
            .unwrap();
    assert_eq!(t.pixels, vec![2, 4, 6, 8]);
}

#[test]
fn float_images_give_no_texture() {
    assert!(gltf_image_to_texture(PixelFormat::R32G32B32Float, 1, 1, vec![0; 12]).is_none());
    assert!(gltf_image_to_texture(PixelFormat::R32G32B32A32Float, 1, 1, vec![0; 16]).is_none());
}

#[test]
fn texture_reads_texels_and_changes_wrap() {
    let t = Texture::from_gltf_image(2, 2, (0..16).collect());
    assert_eq!(t.pixel(1, 1), [12, 13, 14, 15]);
    assert_eq!(t.pixel(1, 0), [4, 5, 6, 7]);
    let t = t.with_wrap(WrapMode::ClampToEdge, WrapMode::MirroredRepeat);
    assert_eq!((t.wrap_s, t.wrap_t), (WrapMode::ClampToEdge, WrapMode::MirroredRepeat));
    assert_eq!(t.pixels, (0..16).collect::<Vec<u8>>());
    assert!(!t.flip_v);
}

#[test]
fn rgba8_texels_become_repeating_textures() {
    let t = Texture::from_rgba8(2, 1, vec![1, 2, 3, 255, 4, 5, 6, 255], true);
    assert_eq!((t.width, t.height), (2, 1));
    assert_eq!(t.pixels, vec![1, 2, 3, 255, 4, 5, 6, 255]);
    assert_eq!((t.wrap_s, t.wrap_t, t.flip_v), (WrapMode::Repeat, WrapMode::Repeat, true));
    let t = Texture::from_rgba8(1, 1, vec![77, 77, 77, 255], false);
    assert!(!t.flip_v);
}

#[test]
fn embedded_grey_image_becomes_rgba() {
    let grey = image::GrayImage::from_raw(2, 1, vec![77, 9]).unwrap();
    let mut png = Vec::new();
    image::DynamicImage::ImageLuma8(grey)
        .write_to(&mut std::io::Cursor::new(&mut png), image::ImageFormat::Png)
        .unwrap();
    let t = Texture::from_encoded(&png).unwrap();
    assert_eq!((t.width, t.height), (2, 1));
    assert_eq!(t.pixels, vec![77, 77, 77, 255, 9, 9, 9, 255]);
    assert!(t.flip_v);
}

#[test]
fn embedded_images_are_decoded() {
    let rgba = image::RgbaImage::from_raw(1, 2, vec![1, 2, 3, 4, 5, 6, 7, 8]).unwrap();
    let mut png = Vec::new();
    image::DynamicImage::ImageRgba8(rgba)
        .write_to(&mut std::io::Cursor::new(&mut png), image::ImageFormat::Png)
        .unwrap();
    let t = Texture::from_encoded(&png).unwrap();
    assert_eq!((t.width, t.height), (1, 2));
    assert_eq!(t.pixels, vec![1, 2, 3, 4, 5, 6, 7, 8]);
    assert!(Texture::from_encoded(b"not an image").is_none());
}

#[test]
fn index_lists_group_into_triangles() {
    assert_eq!(triangle_indices(&[0, 1, 2, 3, 4, 5, 6]), vec![[0, 1, 2], [3, 4, 5]]);
    assert_eq!(triangle_indices(&[0, 1]), Vec::<[u32; 3]>::new());
}

#[test]
fn missing_index_lists_count_up() {
    assert_eq!(sequential_indices(4), vec![0, 1, 2, 3]);
    assert!(sequential_indices(0).is_empty());
}

#[test]
fn faces_find_their_materials() {
    assert_eq!(face_material_index(&[2, 0, 5], 0, 3), Some(2));
    assert_eq!(face_material_index(&[2, 0, 5], 2, 3), None);
    assert_eq!(face_material_index(&[2, 0, 5], 3, 3), None);
    assert_eq!(face_material_index(&[], 0, 3), None);
}

#[test]
fn default_material_is_light_grey_without_texture() {
    let (color, texture) = default_material_data();
    assert_eq!(color, [198, 202, 210, 255]);
    assert!(texture.is_none());
}

#[test]
fn texture_transform_overrides_texcoord_set() {
    assert_eq!(texcoord_set(Some(2), Some(1)), 2);
    assert_eq!(texcoord_set(None, Some(1)), 1);
    assert_eq!(texcoord_set(None, None), 0);
}

#[test]
fn covered_pixels_are_at_least_nearly_opaque() {
    let mut pixels = vec![0u8; 2 * 2 * 4];
    store_fragment(&mut pixels, 2, 0, 1, [10, 20, 30, 0]);
    assert_eq!(bitmap_pixel(&pixels, 2, 0, 1), [10, 20, 30, 230]);
    store_fragment(&mut pixels, 2, 1, 1, [10, 20, 30, 240]);
    assert_eq!(bitmap_pixel(&pixels, 2, 1, 1), [10, 20, 30, 240]);
}

#[test]
fn flat_lists_give_their_triples_and_pairs() {
    let data = [0.5f32, 1.5, 2.5, 3.5, 4.5, 5.5, 6.5];
    assert_eq!(read_triple(&data, 1), Some([3.5, 4.5, 5.5]));
    assert_eq!(read_triple(&data, 2), None);
    assert_eq!(read_pair(&data, 2), Some([4.5, 5.5]));
    assert_eq!(read_pair(&data, 3), None);
    assert_eq!(read_pair::<f32>(&[], 0), None);
}
